//! Where a kept file is copied to, and what happens on a name collision.

use vstd::prelude::*;
use crate::path::{
    dot, dot_dot, extension, extension_of, file_name, file_name_of, join, join_spec, last_dot,
    lemma_file_name_no_slash, lemma_file_name_of_join, lemma_last_dot, name_extension, name_stem,
    name_stem_of, no_slash, parent, parent_of,
};
use crate::text::{chars_of, decimal, decimal_of, digit_char, hex_char, hex_digits, hex_digits_of, pow16, push_all, push_char, string_of};

verus! {

/// ASCII letters and digits.
pub open spec fn is_ascii_alnum(c: char) -> bool {
    ('0' <= c && c <= '9') || ('a' <= c && c <= 'z') || ('A' <= c && c <= 'Z')
}

/// A character kept as it is in a folder name: ASCII letters and digits,
/// `-` and `.`.
pub open spec fn is_safe_char(c: char) -> bool {
    is_ascii_alnum(c) || c == '-' || c == '.'
}

/// How one character is written in a folder name: a safe character as it
/// is, `_` doubled, any other as `_` and the six lower-case hexadecimal
/// digits of its code point. No writing is the start of another, so
/// different names stay different.
pub open spec fn sanitize_char(c: char) -> Seq<char> {
    if is_safe_char(c) {
        seq![c]
    } else if c == '_' {
        seq!['_', '_']
    } else {
        seq!['_'] + hex_digits(c as u32 as nat, 6)
    }
}

/// A name made safe for a folder, character by character (see
/// [`sanitize_char`]).
pub open spec fn sanitize_spec(s: Seq<char>) -> Seq<char>
    decreases s.len(),
{
    if s.len() == 0 {
        Seq::empty()
    } else {
        sanitize_char(s[0]) + sanitize_spec(s.drop_first())
    }
}

proof fn lemma_sanitize_push(s: Seq<char>, c: char)
    ensures
        sanitize_spec(s.push(c)) == sanitize_spec(s) + sanitize_char(c),
    decreases s.len(),
{
    if s.len() == 0 {
        assert(s.push(c).drop_first() =~= Seq::<char>::empty());
        assert(sanitize_spec(Seq::<char>::empty()) == Seq::<char>::empty());
        assert(s.push(c)[0] == c);
        assert(sanitize_spec(s.push(c)) =~= sanitize_char(c));
    } else {
        assert(s.push(c).drop_first() =~= s.drop_first().push(c));
        lemma_sanitize_push(s.drop_first(), c);
        assert(sanitize_spec(s.push(c)) =~= sanitize_spec(s) + sanitize_char(c));
    }
}

proof fn lemma_hex_char_facts(d: nat)
    requires
        d < 16,
    ensures
        hex_char(d) != '_',
        hex_char(d) != '/',
        hex_char(d) as nat == if d < 10 {
            d + 48
        } else {
            d + 87
        },
{
}

proof fn lemma_hex_digits_shape(n: nat, w: nat)
    ensures
        hex_digits(n, w).len() == w,
        forall|i: int| 0 <= i < w ==> #[trigger] hex_digits(n, w)[i] != '_' && hex_digits(n, w)[i] != '/',
    decreases w,
{
    if w > 0 {
        lemma_hex_digits_shape(n / 16, (w - 1) as nat);
        lemma_hex_char_facts(n % 16);
    }
}

proof fn lemma_hex_digits_injective(a: nat, b: nat, w: nat)
    requires
        hex_digits(a, w) == hex_digits(b, w),
    ensures
        a % pow16(w) == b % pow16(w),
    decreases w,
{
    if w == 0 {
        assert(a % 1 == 0 && b % 1 == 0);
    } else {
        let sa = hex_digits(a, w);
        let sb = hex_digits(b, w);
        assert(sa.drop_last() =~= hex_digits(a / 16, (w - 1) as nat));
        assert(sb.drop_last() =~= hex_digits(b / 16, (w - 1) as nat));
        lemma_hex_digits_injective(a / 16, b / 16, (w - 1) as nat);
        lemma_hex_char_facts(a % 16);
        lemma_hex_char_facts(b % 16);
        assert(sa.last() == hex_char(a % 16));
        assert(sb.last() == hex_char(b % 16));
        assert(hex_char(a % 16) as nat == hex_char(b % 16) as nat);
        assert(a % 16 == b % 16);
        lemma_pow16_pos((w - 1) as nat);
        vstd::arithmetic::div_mod::lemma_mod_breakdown(a as int, 16, pow16((w - 1) as nat) as int);
        vstd::arithmetic::div_mod::lemma_mod_breakdown(b as int, 16, pow16((w - 1) as nat) as int);
    }
}

proof fn lemma_pow16_pos(k: nat)
    ensures
        pow16(k) > 0,
        pow16(k + 1) == 16 * pow16(k),
    decreases k,
{
    if k > 0 {
        lemma_pow16_pos((k - 1) as nat);
    }
}

proof fn lemma_sanitize_char_shape(c: char)
    ensures
        sanitize_char(c).len() >= 1,
        forall|i: int| 0 <= i < sanitize_char(c).len() ==> #[trigger] sanitize_char(c)[i] != '/',
        sanitize_char(c)[0] == '_' <==> !is_safe_char(c),
        !is_safe_char(c) ==> (sanitize_char(c)[1] == '_' <==> c == '_'),
{
    lemma_hex_digits_shape(c as u32 as nat, 6);
}

proof fn lemma_sanitize_no_slash(s: Seq<char>)
    ensures
        forall|i: int| 0 <= i < sanitize_spec(s).len() ==> #[trigger] sanitize_spec(s)[i] != '/',
        sanitize_spec(s).len() == 0 <==> s.len() == 0,
    decreases s.len(),
{
    if s.len() > 0 {
        lemma_sanitize_no_slash(s.drop_first());
        lemma_sanitize_char_shape(s[0]);
        let a = sanitize_char(s[0]);
        let b = sanitize_spec(s.drop_first());
        assert forall|i: int| 0 <= i < (a + b).len() implies #[trigger] (a + b)[i] != '/' by {
            if i < a.len() {
                assert((a + b)[i] == a[i]);
            } else {
                assert((a + b)[i] == b[i - a.len()]);
            }
        }
    }
}

proof fn lemma_char_code_injective(c: char, d: char)
    requires
        hex_digits(c as u32 as nat, 6) == hex_digits(d as u32 as nat, 6),
    ensures
        c == d,
{
    lemma_hex_digits_injective(c as u32 as nat, d as u32 as nat, 6);
    assert(pow16(6) == 16777216) by {
        reveal_with_fuel(pow16, 7);
    }
    assert((c as u32) <= 0x10FFFF && (d as u32) <= 0x10FFFF);
    vstd::arithmetic::div_mod::lemma_small_mod(c as u32 as nat, 16777216);
    vstd::arithmetic::div_mod::lemma_small_mod(d as u32 as nat, 16777216);
    assert(c as u32 == d as u32);
}

/// Making names safe keeps different names different.
pub proof fn lemma_sanitize_injective(a: Seq<char>, b: Seq<char>)
    requires
        sanitize_spec(a) == sanitize_spec(b),
    ensures
        a == b,
    decreases a.len() + b.len(),
{
    lemma_sanitize_no_slash(a);
    lemma_sanitize_no_slash(b);
    if a.len() == 0 || b.len() == 0 {
        assert(a.len() == 0 && b.len() == 0);
        assert(a =~= b);
    } else {
        let x = sanitize_spec(a);
        let ea = sanitize_char(a[0]);
        let eb = sanitize_char(b[0]);
        let ra = sanitize_spec(a.drop_first());
        let rb = sanitize_spec(b.drop_first());
        assert(x == ea + ra);
        assert(x == eb + rb);
        lemma_sanitize_char_shape(a[0]);
        lemma_sanitize_char_shape(b[0]);
        lemma_hex_digits_shape(a[0] as u32 as nat, 6);
        lemma_hex_digits_shape(b[0] as u32 as nat, 6);
        assert(x[0] == ea[0] && x[0] == eb[0]);
        if is_safe_char(a[0]) {
            assert(a[0] == b[0]);
        } else {
            assert(x[1] == ea[1] && x[1] == eb[1]);
            if a[0] == '_' {
                assert(b[0] == '_');
            } else {
                assert(b[0] != '_');
                let ha = hex_digits(a[0] as u32 as nat, 6);
                let hb = hex_digits(b[0] as u32 as nat, 6);
                assert forall|i: int| 0 <= i < 6 implies ha[i] == hb[i] by {
                    assert(x[i + 1] == ea[i + 1]);
                    assert(x[i + 1] == eb[i + 1]);
                }
                assert(ha =~= hb);
                lemma_char_code_injective(a[0], b[0]);
            }
        }
        assert(ea == eb);
        assert(ra =~= x.skip(ea.len() as int));
        assert(rb =~= x.skip(eb.len() as int));
        lemma_sanitize_injective(a.drop_first(), b.drop_first());
        assert(a =~= seq![a[0]] + a.drop_first());
        assert(b =~= seq![b[0]] + b.drop_first());
    }
}

/// Where a file of a source goes under the target: the target, then the
/// source's basename made safe, then the file's path relative to the source.
pub open spec fn destination_spec(target: Seq<char>, basename: Seq<char>, rel: Seq<char>) -> Seq<
    char,
> {
    join_spec(join_spec(target, sanitize_spec(basename)), rel)
}

/// Law of the namespacing: for a relative path, sources with different
/// basenames never get the same destination.
pub proof fn lemma_destinations_distinct(
    target: Seq<char>,
    basename1: Seq<char>,
    basename2: Seq<char>,
    rel: Seq<char>,
)
    requires
        basename1 != basename2,
        rel.len() == 0 || rel[0] != '/',
    ensures
        destination_spec(target, basename1, rel) != destination_spec(target, basename2, rel),
{
    if sanitize_spec(basename1) == sanitize_spec(basename2) {
        lemma_sanitize_injective(basename1, basename2);
    }
    lemma_sanitize_no_slash(basename1);
    lemma_sanitize_no_slash(basename2);
    let s1 = sanitize_spec(basename1);
    let s2 = sanitize_spec(basename2);
    let p = if target.len() == 0 || target.last() == '/' {
        target
    } else {
        target + seq!['/']
    };
    lemma_dest_shape(target, s1, rel, p);
    lemma_dest_shape(target, s2, rel, p);
    let d1 = destination_spec(target, basename1, rel);
    let d2 = destination_spec(target, basename2, rel);
    if s1.len() == s2.len() && s1.len() > 0 {
        let k = choose|k: int| 0 <= k < s1.len() && s1[k] != s2[k];
        if !(s1 =~= s2) {
            assert(exists|k: int| 0 <= k < s1.len() && s1[k] != s2[k]);
        }
        assert(d1[p.len() + k] == s1[k]);
        assert(d2[p.len() + k] == s2[k]);
    } else if s1.len() == s2.len() {
        assert(s1 =~= s2);
    } else {
        assert(d1.len() != d2.len());
    }
}

/// Law of the namespacing: the destination of a non-empty relative path of
/// a source with a non-empty basename is that path under the source's
/// folder in the target.
pub proof fn lemma_destination_under_source_folder(target: Seq<char>, basename: Seq<char>, rel: Seq<char>)
    requires
        basename.len() > 0,
        rel.len() > 0,
        rel[0] != '/',
    ensures
        destination_spec(target, basename, rel) == join_spec(target, sanitize_spec(basename)) + seq![
            '/',
        ] + rel,
{
    let s = sanitize_spec(basename);
    lemma_sanitize_no_slash(basename);
    let p = if target.len() == 0 || target.last() == '/' {
        target
    } else {
        target + seq!['/']
    };
    lemma_dest_shape(target, s, rel, p);
    assert(join_spec(target, s) =~= p + s);
    assert(p + s + seq!['/'] + rel =~= (p + s) + seq!['/'] + rel);
}

proof fn lemma_dest_shape(target: Seq<char>, s: Seq<char>, rel: Seq<char>, p: Seq<char>)
    requires
        forall|i: int| 0 <= i < s.len() ==> s[i] != '/',
        rel.len() == 0 || rel[0] != '/',
        p == if target.len() == 0 || target.last() == '/' {
            target
        } else {
            target + seq!['/']
        },
    ensures
        join_spec(join_spec(target, s), rel) == if s.len() == 0 {
            p + rel
        } else {
            p + s + seq!['/'] + rel
        },
{
    let b = join_spec(target, s);
    assert(b =~= p + s);
    if s.len() == 0 {
        assert(p + s =~= p);
    } else {
        assert(b.last() == s.last());
    }
}

/// `name` made safe for a folder (see [`sanitize_char`]).
pub fn sanitize(name: &str) -> (r: String)
    ensures
        r@ == sanitize_spec(name@),
{
    let v = chars_of(name);
    let mut r = String::new();
    let mut i: usize = 0;
    assert(name@.take(0) =~= Seq::<char>::empty());
    while i < v.len()
        invariant
            v@ == name@,
            i <= v.len(),
            r@ == sanitize_spec(name@.take(i as int)),
        decreases v.len() - i,
    {
        let c = v[i];
        let ghost before = r@;
        if ('0' <= c && c <= '9') || ('a' <= c && c <= 'z') || ('A' <= c && c <= 'Z') || c == '-'
            || c == '.' {
            push_char(&mut r, c);
        } else if c == '_' {
            push_char(&mut r, '_');
            push_char(&mut r, '_');
        } else {
            push_char(&mut r, '_');
            push_all(&mut r, &hex_digits_of(c as u32, 6));
        }
        assert(r@ =~= before + sanitize_char(c));
        proof {
            assert(name@.take(i + 1) =~= name@.take(i as int).push(c));
            lemma_sanitize_push(name@.take(i as int), c);
        }
        i = i + 1;
    }
    assert(name@.take(v.len() as int) =~= name@);
    r
}

/// Destination is namespaced by source basename, so two sources with
/// colliding relative paths (two SD cards that both hold
/// `DCIM/100CANON/IMG_0001.JPG`) never collide with each other.
pub fn destination_path(target: &str, source_basename: &str, relative_path: &str) -> (r: String)
    ensures
        r@ == destination_spec(target@, source_basename@, relative_path@),
{
    let safe = sanitize(source_basename);
    let dir = join(target, &safe);
    join(&dir, relative_path)
}

/// What to do about the destination of one file.
#[derive(Debug, Clone, PartialEq, Eq)]
pub enum CollisionResolution {
    /// No file at the destination path yet.
    Copy(String),
    /// A file with the same size is already there: treated as already copied.
    SkipExisting,
    /// A different file is already there: copy under a suffixed name instead.
    Renamed(String),
}

/// The resolution when the destination holds nothing (`existing_size` is
/// `None`) or a file of the source's size; `None` when a file of another
/// size is there and a free suffixed name has to be found.
pub fn resolution_for_existing(dest: &str, existing_size: Option<u64>, src_size: u64) -> (r: Option<
    CollisionResolution,
>)
    ensures
        existing_size is None ==> (r matches Some(CollisionResolution::Copy(d)) && d@ == dest@),
        existing_size == Some(src_size) ==> r == Some(CollisionResolution::SkipExisting),
        (existing_size is Some && existing_size != Some(src_size)) ==> r is None,
{
    match existing_size {
        None => Some(CollisionResolution::Copy(string_of(&chars_of(dest)))),
        Some(size) => if size == src_size {
            Some(CollisionResolution::SkipExisting)
        } else {
            None
        },
    }
}

/// The file name `stem (n).ext` (or `stem (n)` without an extension).
pub open spec fn renamed_name(stem: Seq<char>, n: nat, ext: Option<Seq<char>>) -> Seq<char> {
    let base = stem + seq![' ', '('] + decimal(n) + seq![')'];
    match ext {
        Some(e) => base + seq!['.'] + e,
        None => base,
    }
}

/// The stem of a path's file name (empty when there is no file name).
pub open spec fn path_stem(p: Seq<char>) -> Seq<char> {
    match file_name(p) {
        Some(n) => name_stem(n),
        None => Seq::empty(),
    }
}

/// The `n`-th suffixed alternative for a destination: `stem (n).ext` in the
/// destination's parent directory.
pub open spec fn renamed_candidate_spec(dest: Seq<char>, n: nat) -> Seq<char> {
    let dir = match parent(dest) {
        Some(d) => d,
        None => Seq::empty(),
    };
    join_spec(dir, renamed_name(path_stem(dest), n, extension(dest)))
}

proof fn lemma_decimal_plain(n: nat)
    ensures
        forall|i: int| 0 <= i < decimal(n).len() ==> #[trigger] decimal(n)[i] != '.' && decimal(n)[i] != '/',
    decreases n,
{
    if n >= 10 {
        lemma_decimal_plain(n / 10);
        let d = n % 10;
        assert(digit_char(d) as nat == d + 48);
        let v = decimal(n);
        assert forall|i: int| 0 <= i < v.len() implies #[trigger] v[i] != '.' && v[i] != '/' by {
            if i < v.len() - 1 {
                assert(v[i] == decimal(n / 10)[i]);
            }
        }
    } else {
        assert(digit_char(n) as nat == n + 48);
    }
}

proof fn lemma_last_dot_append(a: Seq<char>, b: Seq<char>)
    requires
        forall|i: int| 0 <= i < b.len() ==> b[i] != '.',
    ensures
        last_dot(a + b) == last_dot(a),
    decreases b.len(),
{
    if b.len() == 0 {
        assert(a + b =~= a);
    } else {
        lemma_last_dot_append(a, b.drop_last());
        assert((a + b).drop_last() =~= a + b.drop_last());
        assert((a + b).last() == b.last());
    }
}

/// Law of renaming: the `n`-th alternative for a destination is a file
/// whose extension is exactly the destination's (same text, same case)
/// and whose stem is the destination's stem followed by ` (n)`.
pub proof fn lemma_renamed_candidate_keeps_extension(dest: Seq<char>, n: nat)
    ensures
        extension(renamed_candidate_spec(dest, n)) == extension(dest),
        file_name(renamed_candidate_spec(dest, n)) matches Some(name) && name_stem(name) == path_stem(
            dest,
        ) + seq![' ', '('] + decimal(n) + seq![')'] && name_extension(name) == extension(dest),
{
    let stem = path_stem(dest);
    let ext = extension(dest);
    let digits = decimal(n);
    let base = stem + seq![' ', '('] + digits + seq![')'];
    let name = renamed_name(stem, n, ext);
    let dir = match parent(dest) {
        Some(d) => d,
        None => Seq::empty(),
    };
    lemma_decimal_plain(n);
    lemma_file_name_no_slash(dest);
    let tail = seq![' ', '('] + digits + seq![')'];
    assert forall|i: int| 0 <= i < tail.len() implies tail[i] != '.' && tail[i] != '/' by {
        if 2 <= i < 2 + digits.len() {
            assert(tail[i] == digits[i - 2]);
        }
    }
    assert(base =~= stem + tail);
    match file_name(dest) {
        Some(f) => {
            lemma_last_dot(f);
            assert(no_slash(stem));
            lemma_last_dot_append(stem, tail);
            match ext {
                Some(e) => {
                    assert(no_slash(e));
                    assert forall|i: int| 0 <= i < e.len() implies e[i] != '.' by {
                        assert(e[i] == f[last_dot(f) + 1 + i]);
                    }
                    let bd = base + seq!['.'];
                    assert(bd.drop_last() =~= base);
                    assert(last_dot(bd) == base.len());
                    lemma_last_dot_append(bd, e);
                    assert(name =~= bd + e);
                    assert(name.subrange(base.len() as int + 1, name.len() as int) =~= e);
                    assert(name.subrange(0, base.len() as int) =~= base);
                },
                None => {
                    assert(name == base);
                },
            }
        },
        None => {
            assert(stem =~= Seq::<char>::empty());
            lemma_last_dot_append(stem, tail);
            assert(name == base);
        },
    }
    assert(no_slash(name)) by {
        assert forall|i: int| 0 <= i < name.len() implies name[i] != '/' by {
            if i < stem.len() {
                assert(name[i] == stem[i]);
            } else if i < base.len() {
                assert(name[i] == tail[i - stem.len()]);
            }
        }
    }
    assert(name.len() >= 4);
    assert(name != dot());
    assert(name != dot_dot());
    lemma_file_name_of_join(dir, name);
}

/// The `n`-th suffixed alternative for a destination (see
/// [`renamed_candidate_spec`]); the first free one is used.
pub fn renamed_candidate(dest: &str, n: u32) -> (r: String)
    ensures
        r@ == renamed_candidate_spec(dest@, n as nat),
{
    let stem = match file_name_of(dest) {
        Some(name) => name_stem_of(&name),
        None => Vec::new(),
    };
    let mut name = string_of(&stem);
    push_char(&mut name, ' ');
    push_char(&mut name, '(');
    push_all(&mut name, &decimal_of(n as u64));
    push_char(&mut name, ')');
    let ghost base = name@;
    assert(base =~= stem@ + seq![' ', '('] + decimal(n as nat) + seq![')']);
    match extension_of(dest) {
        Some(e) => {
            push_char(&mut name, '.');
            push_all(&mut name, &e);
            assert(name@ =~= base + seq!['.'] + e@);
        },
        None => {},
    }
    let dir = match parent_of(dest) {
        Some(d) => d,
        None => String::new(),
    };
    join(&dir, &name)
}

/// The first free suffixed alternative for a destination, given for
/// `n = 1, 2, ...` whether the `n`-th alternative already exists
/// (`existing[n - 1]`): the least `n` whose alternative is free, with that
/// alternative (see [`renamed_candidate_spec`]); `None` when every probed
/// alternative exists, and more have to be probed.
pub fn first_free_rename(dest: &str, existing: &Vec<bool>) -> (r: Option<(u32, String)>)
    requires
        existing@.len() < u32::MAX,
    ensures
        match r {
            Some((n, c)) => 1 <= n <= existing@.len() && !existing@[n - 1] && (forall|k: int|
                0 <= k < n - 1 ==> existing@[k]) && c@ == renamed_candidate_spec(dest@, n as nat),
            None => forall|k: int| 0 <= k < existing@.len() ==> existing@[k],
        },
{
    let mut i: usize = 0;
    while i < existing.len()
        invariant
            i <= existing@.len(),
            existing@.len() < u32::MAX,
            forall|k: int| 0 <= k < i ==> existing@[k],
        decreases existing@.len() - i,
    {
        if !existing[i] {
            let n = (i + 1) as u32;
            return Some((n, renamed_candidate(dest, n)));
        }
        i = i + 1;
    }
    None
}

} // verus!
