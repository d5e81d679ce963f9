//! A cache of decoded, already-downscaled images by their position in the
//! review stream, kept in an LRU cache of the `lru` crate and bounded by
//! both entry count and an approximate byte budget (a handful of
//! full-viewport images already add up).

use vstd::prelude::*;
use lru::LruCache;
use super::request::DecodedImage;

verus! {

#[verifier::external_type_specification]
#[verifier::external_body]
#[verifier::reject_recursive_types(K)]
#[verifier::reject_recursive_types(V)]
#[verifier::reject_recursive_types(S)]
pub struct ExLruCache<K, V, S>(LruCache<K, V, S>);

#[verifier::external_type_specification]
#[verifier::external_body]
pub struct ExLruDefaultHasher(lru::DefaultHasher);

/// The entries of an LRU cache, least recently used first.
pub uninterp spec fn lru_entries(cache: LruCache<usize, DecodedImage>) -> Seq<(usize, DecodedImage)>;

/// The capacity (maximum number of entries) an LRU cache was made with.
pub uninterp spec fn lru_capacity(cache: LruCache<usize, DecodedImage>) -> nat;

/// Whether some entry has key `k`.
pub open spec fn has_key(s: Seq<(usize, DecodedImage)>, k: usize) -> bool {
    exists|i: int| 0 <= i < s.len() && s[i].0 == k
}

/// Whether no two entries share a key.
pub open spec fn keys_distinct(s: Seq<(usize, DecodedImage)>) -> bool {
    forall|i: int, j: int| 0 <= i < s.len() && 0 <= j < s.len() && i != j ==> s[i].0 != s[j].0
}

/// `lru::LruCache::new`, with a capacity of `cap` entries. Claimed of it:
/// the cache is empty and holds its capacity.
#[verifier::external_body]
fn lru_new(cap: usize) -> (c: LruCache<usize, DecodedImage>)
    requires
        cap > 0,
    ensures
        lru_entries(c) == Seq::<(usize, DecodedImage)>::empty(),
        lru_capacity(c) == cap,
{
    LruCache::new(std::num::NonZeroUsize::new(cap).unwrap())
}

/// `lru::LruCache::push`. Claimed of it (from lru's source): an entry with
/// the key is replaced, moves to the most recent end and the old entry is
/// returned; otherwise, on a full cache the least recent entry is removed
/// and returned; the new entry is the most recent one.
#[verifier::external_body]
fn lru_push(c: &mut LruCache<usize, DecodedImage>, k: usize, v: DecodedImage) -> (r: Option<
    (usize, DecodedImage),
>)
    ensures
        lru_capacity(*final(c)) == lru_capacity(*old(c)),
        ({
            let s = lru_entries(*old(c));
            let t = lru_entries(*final(c));
            if has_key(s, k) {
                exists|i: int|
                    0 <= i < s.len() && s[i].0 == k && r == Some((k, s[i].1)) && t == s.remove(
                        i,
                    ).push((k, v))
            } else if s.len() == lru_capacity(*old(c)) && s.len() > 0 {
                r == Some(s[0]) && t == s.drop_first().push((k, v))
            } else {
                r is None && t == s.push((k, v))
            }
        }),
{
    c.push(k, v)
}

/// `lru::LruCache::get`. Claimed of it: the entry with the key, if any, is
/// returned and becomes the most recent one; otherwise nothing changes.
#[verifier::external_body]
fn lru_get(c: &mut LruCache<usize, DecodedImage>, k: usize) -> (r: Option<&DecodedImage>)
    ensures
        lru_capacity(*final(c)) == lru_capacity(*old(c)),
        ({
            let s = lru_entries(*old(c));
            let t = lru_entries(*final(c));
            if has_key(s, k) {
                exists|i: int|
                    0 <= i < s.len() && s[i].0 == k && r == Some(&s[i].1) && t == s.remove(i).push(
                        s[i],
                    )
            } else {
                r is None && t == s
            }
        }),
{
    c.get(&k)
}

/// `lru::LruCache::contains`. Claimed of it: whether an entry has the key
/// (the order is not touched).
#[verifier::external_body]
fn lru_contains(c: &LruCache<usize, DecodedImage>, k: usize) -> (r: bool)
    ensures
        r == has_key(lru_entries(*c), k),
{
    c.contains(&k)
}

/// `lru::LruCache::len`. Claimed of it: the number of entries.
#[verifier::external_body]
fn lru_len(c: &LruCache<usize, DecodedImage>) -> (r: usize)
    ensures
        r == lru_entries(*c).len(),
{
    c.len()
}

/// `lru::LruCache::pop_lru`. Claimed of it: the least recent entry is
/// removed and returned (nothing on an empty cache).
#[verifier::external_body]
fn lru_pop_lru(c: &mut LruCache<usize, DecodedImage>) -> (r: Option<(usize, DecodedImage)>)
    ensures
        lru_capacity(*final(c)) == lru_capacity(*old(c)),
        ({
            let s = lru_entries(*old(c));
            let t = lru_entries(*final(c));
            if s.len() > 0 {
                r == Some(s[0]) && t == s.drop_first()
            } else {
                r is None && t == s
            }
        }),
{
    c.pop_lru()
}

/// Total pixel bytes of the entries.
pub open spec fn bytes_of(s: Seq<(usize, DecodedImage)>) -> nat
    decreases s.len(),
{
    if s.len() == 0 {
        0
    } else {
        bytes_of(s.drop_last()) + s.last().1.rgba@.len()
    }
}

/// Whether an entry's key is in `start..end` or is `protect`.
pub open spec fn kept_key(k: usize, start: usize, end: usize, protect: usize) -> bool {
    k == protect || (start <= k && k < end)
}

/// The entries whose keys are kept, in order.
pub open spec fn kept_entries(s: Seq<(usize, DecodedImage)>, start: usize, end: usize, protect: usize) -> Seq<
    (usize, DecodedImage),
>
    decreases s.len(),
{
    if s.len() == 0 {
        Seq::empty()
    } else if kept_key(s.last().0, start, end, protect) {
        kept_entries(s.drop_last(), start, end, protect).push(s.last())
    } else {
        kept_entries(s.drop_last(), start, end, protect)
    }
}

/// The entries after pushing `(k, v)` into an LRU cache of capacity `cap`
/// holding `s`.
pub open spec fn after_push(s: Seq<(usize, DecodedImage)>, cap: nat, k: usize, v: DecodedImage) -> Seq<
    (usize, DecodedImage),
> {
    if has_key(s, k) {
        s.remove(choose|i: int| 0 <= i < s.len() && s[i].0 == k).push((k, v))
    } else if s.len() == cap && s.len() > 0 {
        s.drop_first().push((k, v))
    } else {
        s.push((k, v))
    }
}

/// Whether `r` is what inserting `(k, v)` makes of the entries `s` of a
/// cache with capacity `cap` and byte budget `budget`: the entry is pushed
/// (see [`after_push`]); then, while the entries take more than the budget
/// and more than one is left, the least recently used is dropped; the new
/// entry ends up the most recently used.
pub open spec fn insert_result(
    s: Seq<(usize, DecodedImage)>,
    cap: nat,
    budget: nat,
    k: usize,
    v: DecodedImage,
    r: Seq<(usize, DecodedImage)>,
) -> bool {
    let base = after_push(s, cap, k, v);
    &&& exists|m: int|
        0 <= m < base.len() && r == base.skip(m) && (forall|j: int|
            0 <= j < m ==> bytes_of(#[trigger] base.skip(j)) > budget && base.len() - j > 1)
    &&& bytes_of(r) <= budget || r.len() <= 1
    &&& r.len() >= 1
    &&& r.last() == (k, v)
}

/// Caches decoded images by their index in the review stream.
pub struct DecodedCache {
    entries: LruCache<usize, DecodedImage>,
    byte_budget: usize,
    bytes_used: usize,
}

impl DecodedCache {
    /// The cached entries, least recently used first.
    pub closed spec fn contents(&self) -> Seq<(usize, DecodedImage)> {
        lru_entries(self.entries)
    }

    /// The most entries the cache holds.
    pub closed spec fn capacity(&self) -> nat {
        lru_capacity(self.entries)
    }

    /// The byte budget the cache evicts down to.
    pub closed spec fn budget(&self) -> nat {
        self.byte_budget as nat
    }

    /// The bytes the cached images take, as the cache counts them.
    pub closed spec fn used(&self) -> nat {
        self.bytes_used as nat
    }

    /// The cache is consistent: distinct keys, no more entries than its
    /// capacity, and the byte count is that of the entries.
    pub closed spec fn wf(&self) -> bool {
        &&& keys_distinct(lru_entries(self.entries))
        &&& lru_capacity(self.entries) >= 1
        &&& lru_entries(self.entries).len() <= lru_capacity(self.entries)
        &&& self.bytes_used as nat == bytes_of(lru_entries(self.entries))
    }

    /// What a consistent cache guarantees: distinct keys, at least one
    /// entry of capacity, no more entries than that, and the bytes counted
    /// are those of the entries.
    pub proof fn lemma_wf(&self)
        requires
            self.wf(),
        ensures
            keys_distinct(self.contents()),
            self.capacity() >= 1,
            self.contents().len() <= self.capacity(),
            self.used() == bytes_of(self.contents()),
    {
    }

    /// An empty cache of `capacity` entries (at least 1) and `byte_budget`
    /// bytes.
    pub fn new(capacity: usize, byte_budget: usize) -> (c: Self)
        ensures
            c.wf(),
            c.contents() == Seq::<(usize, DecodedImage)>::empty(),
            c.capacity() == if capacity >= 1 {
                capacity as nat
            } else {
                1
            },
            c.budget() == byte_budget,
            c.used() == 0,
    {
        let cap = if capacity >= 1 {
            capacity
        } else {
            1
        };
        DecodedCache { entries: lru_new(cap), byte_budget, bytes_used: 0 }
    }

    /// The number of cached images.
    pub fn len(&self) -> (r: usize)
        ensures
            r == self.contents().len(),
    {
        lru_len(&self.entries)
    }

    /// The bytes the cached images take, as the cache counts them.
    pub fn used_bytes(&self) -> (r: usize)
        ensures
            r == self.used(),
    {
        self.bytes_used
    }

    /// Whether the image at `index` is cached.
    pub fn contains(&self, index: usize) -> (r: bool)
        ensures
            r == has_key(self.contents(), index),
    {
        lru_contains(&self.entries, index)
    }

    /// The image at `index`, if cached; a hit makes it the most recently
    /// used entry.
    pub fn get(&mut self, index: usize) -> (r: Option<&DecodedImage>)
        requires
            old(self).wf(),
        ensures
            final(self).wf(),
            final(self).capacity() == old(self).capacity(),
            final(self).budget() == old(self).budget(),
            final(self).used() == bytes_of(final(self).contents()),
            ({
                let s = old(self).contents();
                if has_key(s, index) {
                    exists|i: int|
                        0 <= i < s.len() && s[i].0 == index && r == Some(&s[i].1)
                            && final(self).contents() == s.remove(i).push(s[i])
                } else {
                    r is None && final(self).contents() == s
                }
            }),
    {
        proof {
            lemma_move_to_back_all(lru_entries(self.entries));
        }
        let r = lru_get(&mut self.entries, index);
        r
    }

    /// Caches `image` at `index` as the most recently used entry (replacing
    /// an image cached there, or the least recently used one when the cache
    /// is full); then, while the images take more than the byte budget and
    /// more than one is cached, the least recently used is dropped.
    pub fn insert(&mut self, index: usize, image: DecodedImage)
        requires
            old(self).wf(),
            old(self).used() + image.rgba@.len() <= usize::MAX,
        ensures
            final(self).wf(),
            final(self).capacity() == old(self).capacity(),
            final(self).budget() == old(self).budget(),
            final(self).used() == bytes_of(final(self).contents()),
            insert_result(
                old(self).contents(),
                old(self).capacity(),
                old(self).budget(),
                index,
                image,
                final(self).contents(),
            ),
            has_key(final(self).contents(), index),
    {
        let ghost s = lru_entries(self.entries);
        let ghost cap = lru_capacity(self.entries);
        let ghost img = image;
        let size = image.approx_bytes();
        let replaced = lru_push(&mut self.entries, index, image);
        let ghost base = lru_entries(self.entries);
        proof {
            if has_key(s, index) {
                let i = choose|i: int|
                    0 <= i < s.len() && s[i].0 == index && replaced == Some((index, s[i].1))
                        && base == s.remove(i).push((index, img));
                let c = choose|i: int| 0 <= i < s.len() && s[i].0 == index;
                assert(c == i);
                lemma_bytes_remove(s, i);
                lemma_bytes_push(s.remove(i), (index, img));
                assert forall|a: int, b: int|
                    0 <= a < base.len() && 0 <= b < base.len() && a != b implies base[a].0
                    != base[b].0 by {
                    if a != base.len() - 1 && b != base.len() - 1 {
                        let ra = if a < i { a } else { a + 1 };
                        let rb = if b < i { b } else { b + 1 };
                        assert(base[a] == s[ra]);
                        assert(base[b] == s[rb]);
                    } else if a == base.len() - 1 {
                        let rb = if b < i { b } else { b + 1 };
                        assert(base[b] == s[rb]);
                    } else {
                        let ra = if a < i { a } else { a + 1 };
                        assert(base[a] == s[ra]);
                    }
                }
            } else if s.len() == cap && s.len() > 0 {
                assert(s.drop_first() =~= s.remove(0));
                lemma_bytes_remove(s, 0);
                lemma_bytes_push(s.drop_first(), (index, img));
                assert forall|a: int, b: int|
                    0 <= a < base.len() && 0 <= b < base.len() && a != b implies base[a].0
                    != base[b].0 by {
                    if a != base.len() - 1 {
                        assert(base[a] == s[a + 1]);
                    }
                    if b != base.len() - 1 {
                        assert(base[b] == s[b + 1]);
                    }
                }
            } else {
                lemma_bytes_push(s, (index, img));
                assert forall|a: int, b: int|
                    0 <= a < base.len() && 0 <= b < base.len() && a != b implies base[a].0
                    != base[b].0 by {
                    if a != base.len() - 1 {
                        assert(base[a] == s[a]);
                    }
                    if b != base.len() - 1 {
                        assert(base[b] == s[b]);
                    }
                }
            }
            assert(base == after_push(s, cap, index, img));
        }
        match replaced {
            Some((_, old_image)) => {
                let old_size = old_image.approx_bytes();
                self.bytes_used = self.bytes_used - old_size;
            },
            None => {},
        }
        self.bytes_used = self.bytes_used + size;
        let ghost mut m: int = 0;
        assert(base.skip(0) =~= base);
        let mut len = lru_len(&self.entries);
        while self.bytes_used > self.byte_budget && len > 1
            invariant
                keys_distinct(lru_entries(self.entries)),
                lru_capacity(self.entries) == cap,
                cap >= 1,
                lru_entries(self.entries).len() <= cap,
                self.bytes_used as nat == bytes_of(lru_entries(self.entries)),
                len == lru_entries(self.entries).len(),
                0 <= m < base.len(),
                self.byte_budget == old(self).byte_budget,
                base == after_push(lru_entries(old(self).entries), cap, index, img),
                img == image,
                cap == lru_capacity(old(self).entries),
                lru_entries(self.entries) == base.skip(m),
                base.last() == (index, img),
                forall|k: int|
                    0 <= k < m ==> bytes_of(#[trigger] base.skip(k)) > self.byte_budget && base.len()
                        - k > 1,
            decreases len,
        {
            let ghost t = lru_entries(self.entries);
            let popped = lru_pop_lru(&mut self.entries);
            proof {
                assert(t.drop_first() =~= t.remove(0));
                lemma_bytes_remove(t, 0);
                assert(base.skip(m).drop_first() =~= base.skip(m + 1));
                assert forall|a: int, b: int|
                    0 <= a < t.len() - 1 && 0 <= b < t.len() - 1 && a != b implies t.drop_first()[a].0
                    != t.drop_first()[b].0 by {
                    assert(t.drop_first()[a] == t[a + 1]);
                    assert(t.drop_first()[b] == t[b + 1]);
                }
                m = m + 1;
            }
            match popped {
                Some((_, evicted)) => {
                    let e = evicted.approx_bytes();
                    self.bytes_used = self.bytes_used - e;
                },
                None => {},
            }
            len = lru_len(&self.entries);
        }
        proof {
            assert(lru_entries(self.entries).last() == base.last());
            let b2 = after_push(old(self).contents(), old(self).capacity(), index, image);
            assert(b2 == base);
            assert(forall|k: int|
                0 <= k < m ==> bytes_of(#[trigger] b2.skip(k)) > old(self).budget() && b2.len() - k
                    > 1);
            assert(lru_entries(self.entries) == b2.skip(m));
            assert(exists|mm: int|
                0 <= mm < b2.len() && lru_entries(self.entries) == b2.skip(mm) && (forall|k: int|
                    0 <= k < mm ==> bytes_of(#[trigger] b2.skip(k)) > old(self).budget() && b2.len()
                        - k > 1));
            let r = lru_entries(self.entries);
            assert(r.len() >= 1);
            assert(r[r.len() - 1].0 == index);
        }
    }

    /// Drops every cached image whose index is outside `keep_range`, except
    /// `protect` (the index on screen). Used after a non-contiguous jump so a
    /// stale prefetch window does not linger in memory. The order of the
    /// remaining entries is kept.
    pub fn evict_outside(&mut self, keep_range: std::ops::Range<usize>, protect: usize)
        requires
            old(self).wf(),
        ensures
            final(self).wf(),
            final(self).capacity() == old(self).capacity(),
            final(self).budget() == old(self).budget(),
            final(self).used() == bytes_of(final(self).contents()),
            forall|k: usize|
                has_key(final(self).contents(), k) <==> (has_key(old(self).contents(), k) && (k
                    == protect || (keep_range.start <= k && k < keep_range.end))),
            forall|i: int|
                0 <= i < final(self).contents().len() ==> old(self).contents().contains(
                    #[trigger] final(self).contents()[i],
                ),
            final(self).contents() == kept_entries(
                old(self).contents(),
                keep_range.start,
                keep_range.end,
                protect,
            ),
    {
        let start = keep_range.start;
        let end = keep_range.end;
        let ghost s = lru_entries(self.entries);
        let ghost cap = lru_capacity(self.entries);
        let n = lru_len(&self.entries);
        let mut i: usize = 0;
        assert(s.skip(0) =~= s);
        assert(s.take(0) =~= Seq::<(usize, DecodedImage)>::empty());
        assert(s.skip(0) + kept_entries(s.take(0), start, end, protect) =~= s);
        while i < n
            invariant
                n == s.len(),
                i <= n,
                self.byte_budget == old(self).byte_budget,
                lru_capacity(self.entries) == cap,
                cap >= 1,
                lru_entries(self.entries).len() <= cap,
                keys_distinct(lru_entries(self.entries)),
                self.bytes_used as nat == bytes_of(lru_entries(self.entries)),
                lru_entries(self.entries) == s.skip(i as int) + kept_entries(
                    s.take(i as int),
                    start,
                    end,
                    protect,
                ),
            decreases n - i,
        {
            let ghost t = lru_entries(self.entries);
            proof {
                lemma_evict_step(s, i as int, t, start, end, protect);
            }
            let popped = lru_pop_lru(&mut self.entries);
            match popped {
                Some((k, v)) => {
                    if k == protect || (start <= k && k < end) {
                        let ghost u = lru_entries(self.entries);
                        proof {
                            lemma_push_distinct(u, (k, v));
                        }
                        let _ = lru_push(&mut self.entries, k, v);
                    } else {
                        let e = v.approx_bytes();
                        self.bytes_used = self.bytes_used - e;
                    }
                },
                None => {},
            }
            i = i + 1;
        }
        assert(s.skip(n as int) =~= Seq::<(usize, DecodedImage)>::empty());
        assert(s.take(n as int) =~= s);
        assert(lru_entries(self.entries) =~= kept_entries(s, start, end, protect));
        proof {
            assert forall|k: usize|
                has_key(lru_entries(self.entries), k) <==> (has_key(s, k) && (k == protect || (start
                    <= k && k < end))) by {
                lemma_kept_entries_keys(s, start, end, protect, k);
            }
            lemma_kept_entries_from(s, start, end, protect);
        }
    }
}

proof fn lemma_move_to_back(s: Seq<(usize, DecodedImage)>, i: int)
    requires
        0 <= i < s.len(),
        keys_distinct(s),
    ensures
        keys_distinct(s.remove(i).push(s[i])),
        bytes_of(s.remove(i).push(s[i])) == bytes_of(s),
        s.remove(i).push(s[i]).len() == s.len(),
{
    let t = s.remove(i).push(s[i]);
    lemma_bytes_remove(s, i);
    lemma_bytes_push(s.remove(i), s[i]);
    assert forall|a: int, b: int| 0 <= a < t.len() && 0 <= b < t.len() && a != b implies t[a].0
        != t[b].0 by {
        let ra = if a == t.len() - 1 {
            i
        } else if a < i {
            a
        } else {
            a + 1
        };
        let rb = if b == t.len() - 1 {
            i
        } else if b < i {
            b
        } else {
            b + 1
        };
        assert(t[a] == s[ra]);
        assert(t[b] == s[rb]);
    }
}

proof fn lemma_move_to_back_all(s: Seq<(usize, DecodedImage)>)
    requires
        keys_distinct(s),
    ensures
        forall|i: int|
            0 <= i < s.len() ==> keys_distinct(#[trigger] s.remove(i).push(s[i])) && bytes_of(
                s.remove(i).push(s[i]),
            ) == bytes_of(s) && s.remove(i).push(s[i]).len() == s.len(),
{
    assert forall|i: int| 0 <= i < s.len() implies keys_distinct(#[trigger] s.remove(i).push(s[i]))
        && bytes_of(s.remove(i).push(s[i])) == bytes_of(s) && s.remove(i).push(s[i]).len()
        == s.len() by {
        lemma_move_to_back(s, i);
    }
}

proof fn lemma_kept_entries_from(s: Seq<(usize, DecodedImage)>, start: usize, end: usize, protect: usize)
    ensures
        forall|i: int|
            0 <= i < kept_entries(s, start, end, protect).len() ==> s.contains(
                #[trigger] kept_entries(s, start, end, protect)[i],
            ),
    decreases s.len(),
{
    if s.len() > 0 {
        let d = s.drop_last();
        lemma_kept_entries_from(d, start, end, protect);
        let kd = kept_entries(d, start, end, protect);
        let ks = kept_entries(s, start, end, protect);
        assert forall|i: int| 0 <= i < ks.len() implies s.contains(#[trigger] ks[i]) by {
            if i < kd.len() {
                assert(ks[i] == kd[i]);
                assert(d.contains(kd[i]));
                let j = choose|j: int| 0 <= j < d.len() && d[j] == kd[i];
                assert(s[j] == d[j]);
            } else {
                assert(ks[i] == s[s.len() - 1]);
            }
        }
    }
}

/// Law of `evict_outside`: an index is still cached afterwards exactly when
/// it was cached before and it is in the kept range or is the protected
/// one (so the image on screen is never dropped by it).
pub proof fn lemma_kept_entries_keys(
    s: Seq<(usize, DecodedImage)>,
    start: usize,
    end: usize,
    protect: usize,
    k: usize,
)
    ensures
        has_key(kept_entries(s, start, end, protect), k) <==> (has_key(s, k) && kept_key(
            k,
            start,
            end,
            protect,
        )),
    decreases s.len(),
{
    if s.len() > 0 {
        let d = s.drop_last();
        lemma_kept_entries_keys(d, start, end, protect, k);
        let kd = kept_entries(d, start, end, protect);
        let ks = kept_entries(s, start, end, protect);
        if has_key(s, k) && kept_key(k, start, end, protect) {
            let i = choose|i: int| 0 <= i < s.len() && s[i].0 == k;
            if i < s.len() - 1 {
                assert(d[i].0 == k);
                let j = choose|j: int| 0 <= j < kd.len() && kd[j].0 == k;
                if kept_key(s.last().0, start, end, protect) {
                    assert(ks[j] == kd[j]);
                }
            } else {
                assert(ks.last().0 == k);
            }
        }
        if has_key(ks, k) {
            let j = choose|j: int| 0 <= j < ks.len() && ks[j].0 == k;
            if kept_key(s.last().0, start, end, protect) && j == ks.len() - 1 {
                assert(s[s.len() - 1].0 == k);
            } else {
                assert(kd[j].0 == k);
                let i = choose|i: int| 0 <= i < d.len() && d[i].0 == k;
                assert(s[i].0 == k);
            }
        }
    }
}

proof fn lemma_push_distinct(u: Seq<(usize, DecodedImage)>, e: (usize, DecodedImage))
    requires
        keys_distinct(u),
        !has_key(u, e.0),
    ensures
        keys_distinct(u.push(e)),
        bytes_of(u.push(e)) == bytes_of(u) + e.1.rgba@.len(),
{
    lemma_bytes_push(u, e);
    let w = u.push(e);
    assert forall|a: int, b: int| 0 <= a < w.len() && 0 <= b < w.len() && a != b implies w[a].0
        != w[b].0 by {
        if a != w.len() - 1 {
            assert(w[a] == u[a]);
        }
        if b != w.len() - 1 {
            assert(w[b] == u[b]);
        }
    }
}

proof fn lemma_evict_step(
    s: Seq<(usize, DecodedImage)>,
    i: int,
    t: Seq<(usize, DecodedImage)>,
    start: usize,
    end: usize,
    protect: usize,
)
    requires
        0 <= i < s.len(),
        t == s.skip(i) + kept_entries(s.take(i), start, end, protect),
        keys_distinct(t),
    ensures
        t.len() > 0,
        t[0] == s[i],
        t.drop_first() == s.skip(i + 1) + kept_entries(s.take(i), start, end, protect),
        keys_distinct(t.drop_first()),
        !has_key(t.drop_first(), t[0].0),
        bytes_of(t.drop_first()) + t[0].1.rgba@.len() == bytes_of(t),
        kept_entries(s.take(i + 1), start, end, protect) == if kept_key(s[i].0, start, end, protect) {
            kept_entries(s.take(i), start, end, protect).push(s[i])
        } else {
            kept_entries(s.take(i), start, end, protect)
        },
{
    let kept = kept_entries(s.take(i), start, end, protect);
    assert(t[0] == s.skip(i)[0]);
    assert(t.drop_first() =~= t.remove(0));
    lemma_bytes_remove(t, 0);
    assert(t.drop_first() =~= s.skip(i + 1) + kept);
    assert(s.take(i + 1).drop_last() =~= s.take(i));
    let d = t.drop_first();
    assert forall|a: int, b: int| 0 <= a < d.len() && 0 <= b < d.len() && a != b implies d[a].0
        != d[b].0 by {
        assert(d[a] == t[a + 1]);
        assert(d[b] == t[b + 1]);
    }
    if has_key(d, t[0].0) {
        let a = choose|a: int| 0 <= a < d.len() && d[a].0 == t[0].0;
        assert(d[a] == t[a + 1]);
    }
}

proof fn lemma_bytes_push(s: Seq<(usize, DecodedImage)>, e: (usize, DecodedImage))
    ensures
        bytes_of(s.push(e)) == bytes_of(s) + e.1.rgba@.len(),
{
    assert(s.push(e).drop_last() =~= s);
}

proof fn lemma_bytes_remove(s: Seq<(usize, DecodedImage)>, i: int)
    requires
        0 <= i < s.len(),
    ensures
        bytes_of(s.remove(i)) + s[i].1.rgba@.len() == bytes_of(s),
    decreases s.len(),
{
    if i == s.len() - 1 {
        assert(s.remove(i) =~= s.drop_last());
    } else {
        lemma_bytes_remove(s.drop_last(), i);
        assert(s.remove(i) =~= s.drop_last().remove(i).push(s.last()));
        lemma_bytes_push(s.drop_last().remove(i), s.last());
    }
}

} // verus!
