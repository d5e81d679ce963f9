//! Building the item list of a project from what a walk of the source
//! folders found, and carrying decisions over from an earlier scan.

use vstd::prelude::*;
use crate::media::{MediaKind, classify, classify_spec};
use crate::path::{
    PathComponent, comps_lt, comps_view, components, components_less, components_of,
    components_eq, file_name, file_name_of, lemma_comps_lt_asym, path_lt, same_path, strip_prefix,
    strip_prefix_of,
};
use crate::project::{Decision, ItemView, MediaItem, Source, items_view};
use crate::time::Timestamp;

verus! {

/// One entry met while walking a source folder (the walk itself, and the
/// reading of file metadata, happen outside the library).
#[derive(Debug, Clone)]
pub struct WalkedEntry {
    /// Full path of the entry, as the walk produced it.
    pub path: String,
    /// Whether the entry is a regular file.
    pub is_file: bool,
    /// File size in bytes (0 when the metadata could not be read).
    pub size_bytes: u64,
    /// Last modification time, when known.
    pub modified: Option<Timestamp>,
}

/// The item a walked entry of `src` becomes: only regular files of a known
/// media kind that lie under the source path; the relative path is the
/// entry path with the source path's components taken off.
pub open spec fn entry_item(src: Source, e: WalkedEntry) -> Option<ItemView> {
    if !e.is_file {
        None
    } else {
        match classify_spec(e.path@) {
            None => None,
            Some(kind) => match strip_prefix(e.path@, src.path@) {
                None => None,
                Some(rel) => Some(
                    ItemView {
                        source_id: src.id,
                        relative_path: rel,
                        kind,
                        size_bytes: e.size_bytes,
                        modified: e.modified,
                        decision: Decision::Undecided,
                        decided_at: None,
                    },
                ),
            },
        }
    }
}

/// Items of one source's walked entries, in walk order.
pub open spec fn entries_items(src: Source, es: Seq<WalkedEntry>) -> Seq<ItemView>
    decreases es.len(),
{
    if es.len() == 0 {
        Seq::empty()
    } else {
        let r = entries_items(src, es.drop_last());
        match entry_item(src, es.last()) {
            Some(v) => r.push(v),
            None => r,
        }
    }
}

/// Items of all sources, source by source, in walk order.
pub open spec fn scanned_items_unsorted(srcs: Seq<Source>, walked: Seq<Seq<WalkedEntry>>) -> Seq<
    ItemView,
>
    decreases srcs.len(),
{
    if srcs.len() == 0 {
        Seq::empty()
    } else {
        scanned_items_unsorted(srcs.drop_last(), walked) + entries_items(
            srcs.last(),
            walked[srcs.len() - 1],
        )
    }
}

pub open spec fn walked_view(w: Seq<Vec<WalkedEntry>>) -> Seq<Seq<WalkedEntry>> {
    w.map_values(|v: Vec<WalkedEntry>| v@)
}

/// Project order of items: by source id, then by relative path.
pub open spec fn item_lt(a: ItemView, b: ItemView) -> bool {
    a.source_id < b.source_id || (a.source_id == b.source_id && path_lt(
        a.relative_path,
        b.relative_path,
    ))
}

/// No item sorts before the one in front of it.
pub open spec fn sorted_items(s: Seq<ItemView>) -> bool {
    forall|i: int| 0 <= i < s.len() - 1 ==> !item_lt(#[trigger] s[i + 1], s[i])
}

pub proof fn lemma_item_lt_asym(a: ItemView, b: ItemView)
    ensures
        !(item_lt(a, b) && item_lt(b, a)),
{
    lemma_comps_lt_asym(components(a.relative_path), components(b.relative_path));
}

fn item_less(a: &MediaItem, ka: &Vec<PathComponent>, b: &MediaItem, kb: &Vec<PathComponent>) -> (r:
    bool)
    requires
        comps_view(ka@) == components(a.relative_path@),
        comps_view(kb@) == components(b.relative_path@),
    ensures
        r == item_lt(a@, b@),
{
    if a.source_id < b.source_id {
        true
    } else if a.source_id == b.source_id {
        components_less(ka, kb)
    } else {
        false
    }
}

fn item_from_entry(src: &Source, e: &WalkedEntry) -> (r: Option<MediaItem>)
    ensures
        match r {
            Some(m) => entry_item(*src, *e) == Some(m@),
            None => entry_item(*src, *e) is None,
        },
{
    if !e.is_file {
        return None;
    }
    let kind = match classify(&e.path) {
        Some(k) => k,
        None => return None,
    };
    let rel = match strip_prefix_of(&e.path, &src.path) {
        Some(r) => r,
        None => return None,
    };
    Some(
        MediaItem {
            source_id: src.id,
            relative_path: rel,
            kind,
            size_bytes: e.size_bytes,
            modified: e.modified,
            decision: Decision::Undecided,
            decided_at: None,
        },
    )
}

/// Puts `x` (with key `kx`) into the sorted `out` (keys in `keys`) at a
/// place where neither neighbour sorts after / before it.
fn insert_sorted(
    out: &mut Vec<MediaItem>,
    keys: &mut Vec<Vec<PathComponent>>,
    x: MediaItem,
    kx: Vec<PathComponent>,
)
    requires
        old(out)@.len() == old(keys)@.len(),
        forall|i: int|
            0 <= i < old(out)@.len() ==> comps_view(#[trigger] old(keys)@[i]@) == components(
                old(out)@[i].relative_path@,
            ),
        sorted_items(items_view(old(out)@)),
        comps_view(kx@) == components(x.relative_path@),
    ensures
        final(out)@.len() == final(keys)@.len(),
        forall|i: int|
            0 <= i < final(out)@.len() ==> comps_view(#[trigger] final(keys)@[i]@) == components(
                final(out)@[i].relative_path@,
            ),
        sorted_items(items_view(final(out)@)),
        items_view(final(out)@).to_multiset() == items_view(old(out)@).to_multiset().insert(x@),
{
    let ghost old_v = items_view(out@);
    let mut lo: usize = 0;
    let mut hi: usize = out.len();
    while lo < hi
        invariant
            out@.len() == keys@.len(),
            old_v == items_view(out@),
            forall|i: int|
                0 <= i < out@.len() ==> comps_view(#[trigger] keys@[i]@) == components(
                    out@[i].relative_path@,
                ),
            comps_view(kx@) == components(x.relative_path@),
            lo <= hi <= out@.len(),
            lo == 0 || !item_lt(x@, out@[lo - 1]@),
            hi == out@.len() || item_lt(x@, out@[hi as int]@),
        decreases hi - lo,
    {
        let mid = lo + (hi - lo) / 2;
        if item_less(&x, &kx, &out[mid], &keys[mid]) {
            hi = mid;
        } else {
            lo = mid + 1;
        }
    }
    let j = lo;
    let ghost pre = out@;
    assert(j > 0 ==> old_v[j - 1] == pre[j - 1]@);
    assert(j < pre.len() ==> old_v[j as int] == pre[j as int]@);
    proof {
        if j < out@.len() {
            lemma_item_lt_asym(x@, out@[j as int]@);
        }
    }
    out.insert(j, x);
    keys.insert(j, kx);
    let ghost new_v = items_view(out@);
    assert(new_v =~= old_v.insert(j as int, x@));
    assert forall|i: int| 0 <= i < new_v.len() - 1 implies !item_lt(#[trigger] new_v[i + 1], new_v[i]) by {
        if i + 1 < j {
            assert(old_v[i + 1] == new_v[i + 1]);
            assert(old_v[i] == new_v[i]);
            assert(!item_lt(old_v[i + 1], old_v[i]));
        } else if i + 1 == j {
            assert(new_v[i] == old_v[i]);
            assert(new_v[i + 1] == x@);
        } else if i == j {
            assert(new_v[i] == x@);
            assert(new_v[i + 1] == old_v[i]);
        } else {
            assert(new_v[i] == old_v[i - 1]);
            assert(new_v[i + 1] == old_v[i]);
            assert(!item_lt(old_v[(i - 1) + 1], old_v[i - 1]));
        }
    }
    assert forall|i: int| 0 <= i < out@.len() implies comps_view(#[trigger] keys@[i]@) == components(
        out@[i].relative_path@,
    ) by {
        if i < j {
        } else if i == j {
        } else {
            assert(keys@[i] == old(keys)@[i - 1]);
            assert(out@[i] == old(out)@[i - 1]);
        }
    }
    proof {
        broadcast use vstd::seq_lib::group_to_multiset_ensures;

        assert(new_v.remove(j as int) =~= old_v);
        assert(new_v.to_multiset().remove(x@) =~= old_v.to_multiset());
        assert(new_v.to_multiset().contains(x@));
        assert(new_v.to_multiset() =~= old_v.to_multiset().insert(x@));
    }
}

/// The items of a new project: from the entries that a walk of each source
/// found (`walked[i]` for `sources[i]`), the regular files of a known media
/// kind under the source path, undecided, sorted by source id and then
/// relative path.
pub fn scanned_items(sources: &[Source], walked: &Vec<Vec<WalkedEntry>>) -> (r: Vec<MediaItem>)
    requires
        walked@.len() == sources@.len(),
    ensures
        items_view(r@).to_multiset() == scanned_items_unsorted(
            sources@,
            walked_view(walked@),
        ).to_multiset(),
        sorted_items(items_view(r@)),
{
    let ghost wv = walked_view(walked@);
    let mut out: Vec<MediaItem> = Vec::new();
    let mut keys: Vec<Vec<PathComponent>> = Vec::new();
    let mut s: usize = 0;
    assert(sources@.take(0) =~= Seq::<Source>::empty());
    assert(items_view(out@) =~= Seq::<ItemView>::empty());
    while s < sources.len()
        invariant
            walked@.len() == sources@.len(),
            wv == walked_view(walked@),
            s <= sources@.len(),
            out@.len() == keys@.len(),
            forall|i: int|
                0 <= i < out@.len() ==> comps_view(#[trigger] keys@[i]@) == components(
                    out@[i].relative_path@,
                ),
            sorted_items(items_view(out@)),
            items_view(out@).to_multiset() == scanned_items_unsorted(
                sources@.take(s as int),
                wv,
            ).to_multiset(),
        decreases sources@.len() - s,
    {
        let src = &sources[s];
        let es = &walked[s];
        let ghost before = scanned_items_unsorted(sources@.take(s as int), wv);
        let mut e: usize = 0;
        while e < es.len()
            invariant
                es@ == wv[s as int],
                src == sources@[s as int],
                e <= es@.len(),
                out@.len() == keys@.len(),
                forall|i: int|
                    0 <= i < out@.len() ==> comps_view(#[trigger] keys@[i]@) == components(
                        out@[i].relative_path@,
                    ),
                sorted_items(items_view(out@)),
                items_view(out@).to_multiset() == (before + entries_items(
                    *src,
                    es@.take(e as int),
                )).to_multiset(),
            decreases es@.len() - e,
        {
            assert(es@.take(e + 1).drop_last() =~= es@.take(e as int));
            match item_from_entry(src, &es[e]) {
                Some(m) => {
                    let k = components_of(&m.relative_path);
                    insert_sorted(&mut out, &mut keys, m, k);
                    proof {
                        broadcast use vstd::seq_lib::group_to_multiset_ensures;

                        let prev = before + entries_items(*src, es@.take(e as int));
                        assert(before + entries_items(*src, es@.take(e + 1)) =~= prev.push(m@));
                    }
                },
                None => {
                    assert(before + entries_items(*src, es@.take(e + 1)) =~= before
                        + entries_items(*src, es@.take(e as int)));
                },
            }
            e = e + 1;
        }
        assert(es@.take(es@.len() as int) =~= es@);
        assert(sources@.take(s + 1).drop_last() =~= sources@.take(s as int));
        assert(scanned_items_unsorted(sources@.take(s + 1), wv) == before + entries_items(
            *src,
            es@,
        ));
        s = s + 1;
    }
    assert(sources@.take(sources@.len() as int) =~= sources@);
    out
}

/// Whether `v` is the item that some walked entry of `src` becomes.
pub open spec fn item_of_source(src: Source, v: ItemView) -> bool {
    exists|e: WalkedEntry| #[trigger] entry_item(src, e) == Some(v)
}

proof fn lemma_entries_items_from(src: Source, es: Seq<WalkedEntry>, v: ItemView)
    requires
        entries_items(src, es).contains(v),
    ensures
        item_of_source(src, v),
    decreases es.len(),
{
    let r = entries_items(src, es.drop_last());
    match entry_item(src, es.last()) {
        Some(w) => {
            if w == v {
                assert(entry_item(src, es.last()) == Some(v));
            } else {
                let i = choose|i: int| 0 <= i < r.push(w).len() && r.push(w)[i] == v;
                assert(r[i] == v);
                lemma_entries_items_from(src, es.drop_last(), v);
            }
        },
        None => {
            lemma_entries_items_from(src, es.drop_last(), v);
        },
    }
}

proof fn lemma_unsorted_from(srcs: Seq<Source>, walked: Seq<Seq<WalkedEntry>>, v: ItemView)
    requires
        scanned_items_unsorted(srcs, walked).contains(v),
    ensures
        exists|j: int| 0 <= j < srcs.len() && #[trigger] item_of_source(srcs[j], v),
    decreases srcs.len(),
{
    let a = scanned_items_unsorted(srcs.drop_last(), walked);
    let b = entries_items(srcs.last(), walked[srcs.len() - 1]);
    let i = choose|i: int| 0 <= i < (a + b).len() && (a + b)[i] == v;
    if i < a.len() {
        assert(a[i] == v);
        lemma_unsorted_from(srcs.drop_last(), walked, v);
        let j = choose|j: int| 0 <= j < srcs.drop_last().len() && #[trigger] item_of_source(srcs.drop_last()[j], v);
        assert(srcs.drop_last()[j] == srcs[j]);
    } else {
        assert(b[i - a.len()] == v);
        lemma_entries_items_from(srcs.last(), walked[srcs.len() - 1], v);
        assert(item_of_source(srcs[srcs.len() - 1], v));
    }
}

/// Law of the scan: every item of a scan is undecided with no decision
/// time, and comes from a regular file walked under one of the sources: it
/// carries that source's id, the kind the file's extension gives, and the
/// file's path relative to the source path.
pub proof fn lemma_scanned_item_facts(
    srcs: Seq<Source>,
    walked: Seq<Seq<WalkedEntry>>,
    r: Seq<ItemView>,
    i: int,
)
    requires
        r.to_multiset() == scanned_items_unsorted(srcs, walked).to_multiset(),
        0 <= i < r.len(),
    ensures
        r[i].decision == Decision::Undecided,
        r[i].decided_at is None,
        exists|j: int, e: WalkedEntry|
            0 <= j < srcs.len() && r[i].source_id == srcs[j].id && e.is_file && classify_spec(e.path@)
                == Some(r[i].kind) && #[trigger] strip_prefix(e.path@, srcs[j].path@) == Some(
                r[i].relative_path,
            ) && entry_item(srcs[j], e) == Some(r[i]),
{
    broadcast use vstd::seq_lib::group_to_multiset_ensures;

    let v = r[i];
    assert(r.to_multiset().count(v) > 0);
    assert(scanned_items_unsorted(srcs, walked).contains(v));
    lemma_unsorted_from(srcs, walked, v);
    let j = choose|j: int| 0 <= j < srcs.len() && #[trigger] item_of_source(srcs[j], v);
    let e = choose|e: WalkedEntry| #[trigger] entry_item(srcs[j], e) == Some(v);
    assert(strip_prefix(e.path@, srcs[j].path@) == Some(v.relative_path));
}

/// Whether two items stand for the same file: same source, same path
/// components.
pub open spec fn same_identity(a: ItemView, b: ItemView) -> bool {
    a.source_id == b.source_id && same_path(a.relative_path, b.relative_path)
}

/// Whether `j` is the first item of `prev` with the identity of `item`.
pub open spec fn is_first_match(prev: Seq<ItemView>, j: int, item: ItemView) -> bool {
    &&& 0 <= j < prev.len()
    &&& same_identity(prev[j], item)
    &&& forall|k: int| 0 <= k < j ==> !same_identity(prev[k], item)
}

/// What merging makes of one fresh item: the decision and its time come
/// from the first earlier item with the same identity, if there is one.
pub open spec fn merged_item(fresh: ItemView, prev: Seq<ItemView>, r: ItemView) -> bool {
    &&& r.source_id == fresh.source_id
    &&& r.relative_path == fresh.relative_path
    &&& r.kind == fresh.kind
    &&& r.size_bytes == fresh.size_bytes
    &&& r.modified == fresh.modified
    &&& if exists|j: int| 0 <= j < prev.len() && same_identity(prev[j], fresh) {
        exists|j: int|
            is_first_match(prev, j, fresh) && r.decision == prev[j].decision && r.decided_at
                == prev[j].decided_at
    } else {
        r.decision == fresh.decision && r.decided_at == fresh.decided_at
    }
}

/// Merges a fresh scan with the previous item list, carrying each decision
/// (and its time) forward to the fresh item with the same identity (source
/// id and relative path). Items only in `previous` are dropped; the fresh
/// order is kept.
pub fn merge_with_previous(fresh: Vec<MediaItem>, previous: &[MediaItem]) -> (r: Vec<MediaItem>)
    ensures
        r@.len() == fresh@.len(),
        forall|i: int|
            0 <= i < r@.len() ==> merged_item(
                #[trigger] fresh@[i]@,
                items_view(previous@),
                r@[i]@,
            ),
{
    let ghost pv = items_view(previous@);
    let mut prev_keys: Vec<Vec<PathComponent>> = Vec::new();
    let mut j: usize = 0;
    while j < previous.len()
        invariant
            j <= previous@.len(),
            prev_keys@.len() == j,
            forall|k: int|
                0 <= k < j ==> comps_view(#[trigger] prev_keys@[k]@) == components(
                    previous@[k].relative_path@,
                ),
        decreases previous@.len() - j,
    {
        prev_keys.push(components_of(&previous[j].relative_path));
        j = j + 1;
    }
    let mut r: Vec<MediaItem> = Vec::new();
    let mut i: usize = 0;
    while i < fresh.len()
        invariant
            pv == items_view(previous@),
            prev_keys@.len() == previous@.len(),
            forall|k: int|
                0 <= k < previous@.len() ==> comps_view(#[trigger] prev_keys@[k]@) == components(
                    previous@[k].relative_path@,
                ),
            i <= fresh@.len(),
            r@.len() == i,
            forall|k: int| 0 <= k < i ==> merged_item(#[trigger] fresh@[k]@, pv, r@[k]@),
        decreases fresh@.len() - i,
    {
        let item = &fresh[i];
        let key = components_of(&item.relative_path);
        let mut found: Option<usize> = None;
        let mut k: usize = 0;
        while k < previous.len() && found.is_none()
            invariant
                pv == items_view(previous@),
                prev_keys@.len() == previous@.len(),
                forall|q: int|
                    0 <= q < previous@.len() ==> comps_view(#[trigger] prev_keys@[q]@)
                        == components(previous@[q].relative_path@),
                comps_view(key@) == components(item.relative_path@),
                k <= previous@.len(),
                found is None ==> forall|q: int| 0 <= q < k ==> !same_identity(pv[q], item@),
                found matches Some(q) ==> is_first_match(pv, q as int, item@),
            decreases previous@.len() - k,
        {
            if previous[k].source_id == item.source_id && components_eq(&prev_keys[k], &key) {
                found = Some(k);
            }
            k = k + 1;
        }
        let (decision, decided_at) = match found {
            Some(q) => (previous[q].decision, previous[q].decided_at),
            None => (item.decision, item.decided_at),
        };
        let m = MediaItem {
            source_id: item.source_id,
            relative_path: item.relative_path.clone(),
            kind: item.kind,
            size_bytes: item.size_bytes,
            modified: item.modified,
            decision,
            decided_at,
        };
        proof {
            if let Some(q) = found {
                assert(is_first_match(pv, q as int, item@));
            }
        }
        assert(merged_item(item@, pv, m@));
        r.push(m);
        i = i + 1;
    }
    r
}

/// Whether previous item `j` is the same file as `item`: the same source
/// id and the same path components.
pub open spec fn same_file_at(prev: Seq<ItemView>, j: int, item: ItemView) -> bool {
    prev[j].source_id == item.source_id && components(prev[j].relative_path) == components(
        item.relative_path,
    )
}

/// Law of merging: a fresh item takes its decision (and decision time)
/// from the first previous item with the same source id and the same path
/// components; when no previous item has both, it keeps its own. A
/// previous item of another source never gives its decision, whatever its
/// path. Everything else about the item is the fresh scan's.
pub proof fn lemma_merge_keeps_decisions_per_source(
    fresh: Seq<ItemView>,
    prev: Seq<ItemView>,
    r: Seq<ItemView>,
    i: int,
)
    requires
        r.len() == fresh.len(),
        forall|k: int| 0 <= k < r.len() ==> merged_item(#[trigger] fresh[k], prev, r[k]),
        0 <= i < r.len(),
    ensures
        r[i].source_id == fresh[i].source_id,
        r[i].relative_path == fresh[i].relative_path,
        r[i].kind == fresh[i].kind,
        r[i].size_bytes == fresh[i].size_bytes,
        r[i].modified == fresh[i].modified,
        (forall|j: int| 0 <= j < prev.len() ==> !#[trigger] same_file_at(prev, j, fresh[i]))
            ==> r[i].decision == fresh[i].decision && r[i].decided_at == fresh[i].decided_at,
        forall|j: int|
            0 <= j < prev.len() && #[trigger] same_file_at(prev, j, fresh[i]) && (forall|q: int|
                0 <= q < j ==> !same_file_at(prev, q, fresh[i])) ==> r[i].decision
                == prev[j].decision && r[i].decided_at == prev[j].decided_at,
{
    assert(merged_item(fresh[i], prev, r[i]));
    let f = fresh[i];
    if exists|j: int| 0 <= j < prev.len() && same_identity(prev[j], f) {
        let j0 = choose|j: int|
            is_first_match(prev, j, f) && r[i].decision == prev[j].decision && r[i].decided_at
                == prev[j].decided_at;
        assert forall|j: int|
            0 <= j < prev.len() && #[trigger] same_file_at(prev, j, f) && (forall|q: int|
                0 <= q < j ==> !same_file_at(prev, q, f)) implies r[i].decision == prev[j].decision
            && r[i].decided_at == prev[j].decided_at by {
            if j < j0 {
                assert(!same_identity(prev[j], f));
            } else if j > j0 {
                assert(!same_file_at(prev, j0, f));
            }
        }
        assert(same_file_at(prev, j0, f));
    } else {
        assert forall|j: int| 0 <= j < prev.len() implies !#[trigger] same_file_at(prev, j, f) by {
            assert(!same_identity(prev[j], f));
        }
    }
}

/// The id to give a newly added source: one more than the largest id in
/// use, or 0 when there are no sources yet.
pub fn next_source_id(sources: &[Source]) -> (r: u32)
    requires
        forall|j: int| 0 <= j < sources@.len() ==> sources@[j].id < u32::MAX,
    ensures
        sources@.len() == 0 ==> r == 0,
        sources@.len() > 0 ==> exists|j: int| 0 <= j < sources@.len() && r == sources@[j].id + 1,
        forall|j: int| 0 <= j < sources@.len() ==> sources@[j].id < r,
{
    if sources.len() == 0 {
        return 0;
    }
    let mut best: u32 = sources[0].id;
    let mut bi: usize = 0;
    let mut i: usize = 1;
    while i < sources.len()
        invariant
            1 <= i <= sources@.len(),
            bi < i,
            best == sources@[bi as int].id,
            forall|j: int| 0 <= j < i ==> sources@[j].id <= best,
            forall|j: int| 0 <= j < sources@.len() ==> sources@[j].id < u32::MAX,
        decreases sources@.len() - i,
    {
        if sources[i].id > best {
            best = sources[i].id;
            bi = i;
        }
        i = i + 1;
    }
    best + 1
}

/// The name a source is shown and namespaced by: the last component of its
/// path when that is a normal name, else `source`.
pub open spec fn source_basename_spec(path: Seq<char>) -> Seq<char> {
    match file_name(path) {
        Some(n) => n,
        None => "source"@,
    }
}

/// The name a source is shown and namespaced by is never empty.
pub proof fn lemma_source_basename_nonempty(path: Seq<char>)
    ensures
        source_basename_spec(path).len() > 0,
{
    crate::path::lemma_normal_components_nonempty(path);
    let c = components(path);
    if c.len() > 0 && c.last() is Normal {
        assert(c[c.len() - 1] is Normal);
        assert(file_name(path) == Some(c.last()->Normal_0));
    } else {
        reveal_strlit("source");
        assert(file_name(path) is None);
    }
}

/// The name a source is shown and namespaced by (see [`source_basename_spec`]).
pub fn source_basename(path: &str) -> (r: String)
    ensures
        r@ == source_basename_spec(path@),
{
    match file_name_of(path) {
        Some(n) => crate::text::string_of(&n),
        None => crate::text::string_of(&crate::text::chars_of("source")),
    }
}

} // verus!
