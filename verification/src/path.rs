//! Paths, read with Unix path rules.
//!
//! A path is carried as a string. Its *components* are what Unix path
//! syntax makes of it: a leading `/` is the root; repeated separators and
//! `.` parts are dropped, except a `.` at the very start, which is the
//! current directory; `..` is the parent directory; every other part is a
//! normal name. Identity, order, file names and extensions are read off
//! the components; `join` works on the raw text.

use vstd::prelude::*;
use crate::text::{push_char, push_all};

verus! {

/// One component of a path (mathematical form).
pub enum Comp {
    RootDir,
    CurDir,
    ParentDir,
    Normal(Seq<char>),
}

/// One component of a path.
#[derive(Debug)]
pub enum PathComponent {
    RootDir,
    CurDir,
    ParentDir,
    Normal(Vec<char>),
}

impl View for PathComponent {
    type V = Comp;

    open spec fn view(&self) -> Comp {
        match self {
            PathComponent::RootDir => Comp::RootDir,
            PathComponent::CurDir => Comp::CurDir,
            PathComponent::ParentDir => Comp::ParentDir,
            PathComponent::Normal(v) => Comp::Normal(v@),
        }
    }
}

/// The mathematical components of a vector of components.
pub open spec fn comps_view(v: Seq<PathComponent>) -> Seq<Comp> {
    v.map_values(|c: PathComponent| c@)
}

/// The text split at every `/` (so there is always at least one part).
pub open spec fn split_parts(s: Seq<char>) -> Seq<Seq<char>>
    decreases s.len(),
{
    if s.len() == 0 {
        seq![Seq::<char>::empty()]
    } else {
        let prev = split_parts(s.drop_last());
        if s.last() == '/' {
            prev.push(Seq::<char>::empty())
        } else {
            prev.update(prev.len() - 1, prev.last().push(s.last()))
        }
    }
}

pub open spec fn dot() -> Seq<char> {
    seq!['.']
}

pub open spec fn dot_dot() -> Seq<char> {
    seq!['.', '.']
}

/// The component a non-empty, non-`.` part stands for.
pub open spec fn comp_of(p: Seq<char>) -> Comp {
    if p == dot_dot() {
        Comp::ParentDir
    } else {
        Comp::Normal(p)
    }
}

/// Components of the parts after the first: empty and `.` parts are dropped.
pub open spec fn body_comps(ps: Seq<Seq<char>>) -> Seq<Comp>
    decreases ps.len(),
{
    if ps.len() == 0 {
        Seq::empty()
    } else {
        let r = body_comps(ps.drop_last());
        let p = ps.last();
        if p.len() == 0 || p == dot() {
            r
        } else {
            r.push(comp_of(p))
        }
    }
}

/// Components of the first part, given whether a `/` follows it.
pub open spec fn head_comps(p0: Seq<char>, more: bool) -> Seq<Comp> {
    if p0.len() == 0 {
        if more {
            seq![Comp::RootDir]
        } else {
            Seq::empty()
        }
    } else if p0 == dot() {
        seq![Comp::CurDir]
    } else {
        seq![comp_of(p0)]
    }
}

/// The components of a path.
pub open spec fn components(s: Seq<char>) -> Seq<Comp> {
    let ps = split_parts(s);
    head_comps(ps[0], ps.len() > 1) + body_comps(ps.drop_first())
}

pub proof fn lemma_split_parts_len(s: Seq<char>)
    ensures
        split_parts(s).len() >= 1,
    decreases s.len(),
{
    if s.len() > 0 {
        lemma_split_parts_len(s.drop_last());
    }
}

fn is_dot(p: &Vec<char>) -> (r: bool)
    ensures
        r == (p@ == dot()),
{
    if p.len() == 1 && p[0] == '.' {
        assert(p@ =~= dot());
        true
    } else {
        false
    }
}

fn is_dot_dot(p: &Vec<char>) -> (r: bool)
    ensures
        r == (p@ == dot_dot()),
{
    if p.len() == 2 && p[0] == '.' && p[1] == '.' {
        assert(p@ =~= dot_dot());
        true
    } else {
        false
    }
}

fn make_comp(p: Vec<char>) -> (r: PathComponent)
    ensures
        r@ == comp_of(p@),
{
    if is_dot_dot(&p) {
        PathComponent::ParentDir
    } else {
        PathComponent::Normal(p)
    }
}

/// The components of a path.
pub fn components_of(s: &str) -> (r: Vec<PathComponent>)
    ensures
        comps_view(r@) == components(s@),
{
    let n = s.unicode_len();
    let mut out: Vec<PathComponent> = Vec::new();
    let mut cur: Vec<char> = Vec::new();
    let mut k: usize = 0;
    let mut i: usize = 0;
    assert(s@.take(0) =~= Seq::<char>::empty());
    while i < n
        invariant
            n == s@.len(),
            i <= n,
            k <= i,
            split_parts(s@.take(i as int)).len() == k + 1,
            cur@ == split_parts(s@.take(i as int)).last(),
            k == 0 ==> out@.len() == 0,
            k > 0 ==> comps_view(out@) == head_comps(split_parts(s@.take(i as int))[0], true)
                + body_comps(split_parts(s@.take(i as int)).subrange(1, k as int)),
        decreases n - i,
    {
        let c = s.get_char(i);
        let ghost t = s@.take(i as int);
        let ghost ps = split_parts(t);
        assert(s@.take(i + 1).drop_last() =~= t);
        assert(s@.take(i + 1).last() == c);
        let ghost ps2 = split_parts(s@.take(i + 1));
        if c == '/' {
            assert(ps2 == ps.push(Seq::<char>::empty()));
            let part = cur;
            cur = Vec::new();
            if k == 0 {
                if part.len() == 0 {
                    out.push(PathComponent::RootDir);
                } else if is_dot(&part) {
                    out.push(PathComponent::CurDir);
                } else {
                    out.push(make_comp(part));
                }
                assert(ps2.subrange(1, 1) =~= Seq::<Seq<char>>::empty());
                assert(comps_view(out@) =~= head_comps(ps2[0], true) + body_comps(
                    ps2.subrange(1, 1),
                ));
            } else {
                let ghost old_out = comps_view(out@);
                assert(ps2.subrange(1, k + 1).drop_last() =~= ps.subrange(1, k as int));
                assert(ps2.subrange(1, k + 1).last() == ps[k as int]);
                if part.len() == 0 || is_dot(&part) {
                } else {
                    out.push(make_comp(part));
                    assert(comps_view(out@) =~= old_out.push(comp_of(ps[k as int])));
                }
                assert(comps_view(out@) =~= head_comps(ps2[0], true) + body_comps(
                    ps2.subrange(1, k + 1),
                ));
            }
            k = k + 1;
        } else {
            assert(ps2 == ps.update(ps.len() - 1, ps.last().push(c)));
            cur.push(c);
            if k > 0 {
                assert(ps2.subrange(1, k as int) =~= ps.subrange(1, k as int));
            }
        }
        i = i + 1;
    }
    assert(s@.take(n as int) =~= s@);
    let ghost ps = split_parts(s@);
    let part = cur;
    if k == 0 {
        if part.len() == 0 {
        } else if is_dot(&part) {
            out.push(PathComponent::CurDir);
        } else {
            out.push(make_comp(part));
        }
        assert(ps.drop_first() =~= Seq::<Seq<char>>::empty());
        assert(comps_view(out@) =~= head_comps(ps[0], false) + body_comps(ps.drop_first()));
    } else {
        let ghost old_out = comps_view(out@);
        assert(ps.drop_first().drop_last() =~= ps.subrange(1, k as int));
        assert(ps.drop_first().last() == ps[k as int]);
        if part.len() == 0 || is_dot(&part) {
        } else {
            out.push(make_comp(part));
            assert(comps_view(out@) =~= old_out.push(comp_of(ps[k as int])));
        }
        assert(comps_view(out@) =~= head_comps(ps[0], true) + body_comps(ps.drop_first()));
    }
    out
}


/// `base` joined with `rest`: a `rest` that starts with `/` replaces
/// `base`; otherwise a `/` is put between them unless `base` is empty or
/// already ends in `/`.
pub open spec fn join_spec(base: Seq<char>, rest: Seq<char>) -> Seq<char> {
    if rest.len() > 0 && rest[0] == '/' {
        rest
    } else if base.len() == 0 || base.last() == '/' {
        base + rest
    } else {
        base + seq!['/'] + rest
    }
}

/// `base` joined with `rest` (see [`join_spec`]).
pub fn join(base: &str, rest: &str) -> (r: String)
    ensures
        r@ == join_spec(base@, rest@),
{
    let b = crate::text::chars_of(base);
    let t = crate::text::chars_of(rest);
    if t.len() > 0 && t[0] == '/' {
        return crate::text::string_of(&t);
    }
    let mut r = crate::text::string_of(&b);
    if b.len() > 0 && b[b.len() - 1] != '/' {
        push_char(&mut r, '/');
    }
    push_all(&mut r, &t);
    r
}

proof fn lemma_body_comps_normal_nonempty(ps: Seq<Seq<char>>)
    ensures
        forall|i: int|
            0 <= i < body_comps(ps).len() && #[trigger] body_comps(ps)[i] is Normal ==> body_comps(
                ps,
            )[i]->Normal_0.len() > 0,
    decreases ps.len(),
{
    if ps.len() > 0 {
        lemma_body_comps_normal_nonempty(ps.drop_last());
    }
}

/// A normal component of a path is never empty.
pub proof fn lemma_normal_components_nonempty(s: Seq<char>)
    ensures
        forall|i: int|
            0 <= i < components(s).len() && #[trigger] components(s)[i] is Normal ==> components(
                s,
            )[i]->Normal_0.len() > 0,
{
    lemma_split_parts_len(s);
    let ps = split_parts(s);
    lemma_body_comps_normal_nonempty(ps.drop_first());
    let h = head_comps(ps[0], ps.len() > 1);
    let b = body_comps(ps.drop_first());
    assert forall|i: int| 0 <= i < (h + b).len() && #[trigger] (h + b)[i] is Normal implies (h
        + b)[i]->Normal_0.len() > 0 by {
        if i >= h.len() {
            assert((h + b)[i] == b[i - h.len()]);
        }
    }
}

/// Whether `s` holds no `/`.
pub open spec fn no_slash(s: Seq<char>) -> bool {
    forall|i: int| 0 <= i < s.len() ==> s[i] != '/'
}

proof fn lemma_split_append(s: Seq<char>, t: Seq<char>)
    requires
        no_slash(t),
    ensures
        split_parts(s + t).len() == split_parts(s).len(),
        split_parts(s + t) == split_parts(s).update(
            split_parts(s).len() - 1,
            split_parts(s).last() + t,
        ),
    decreases t.len(),
{
    lemma_split_parts_len(s);
    let p = split_parts(s);
    if t.len() == 0 {
        assert(s + t =~= s);
        assert(p.last() + t =~= p.last());
        assert(p.update(p.len() - 1, p.last()) =~= p);
    } else {
        let t0 = t.drop_last();
        lemma_split_append(s, t0);
        assert((s + t).drop_last() =~= s + t0);
        assert((s + t).last() == t.last());
        let prev = split_parts(s + t0);
        assert(prev.last() == p.last() + t0);
        assert(prev.last().push(t.last()) =~= p.last() + t);
        assert(prev.update(prev.len() - 1, prev.last().push(t.last())) =~= p.update(
            p.len() - 1,
            p.last() + t,
        ));
    }
}

/// A plain name (not empty, without `/`, neither `.` nor `..`) joined to
/// any directory is the file name of the result.
pub proof fn lemma_file_name_of_join(dir: Seq<char>, name: Seq<char>)
    requires
        name.len() > 0,
        no_slash(name),
        name != dot(),
        name != dot_dot(),
    ensures
        file_name(join_spec(dir, name)) == Some(name),
{
    let j = join_spec(dir, name);
    assert(name[0] != '/');
    if dir.len() == 0 {
        assert(j =~= Seq::<char>::empty() + name);
        lemma_split_append(Seq::<char>::empty(), name);
        let ps = split_parts(j);
        assert(split_parts(Seq::<char>::empty()) == seq![Seq::<char>::empty()]);
        assert(ps.len() == 1);
        assert(ps[0] =~= name);
        assert(components(j) =~= seq![Comp::Normal(name)]);
    } else {
        let d = if dir.last() == '/' {
            dir
        } else {
            dir + seq!['/']
        };
        assert(j =~= d + name);
        assert(d.last() == '/');
        assert(d.drop_last() + seq!['/'] =~= d);
        let p0 = split_parts(d.drop_last());
        lemma_split_parts_len(d.drop_last());
        assert(split_parts(d) == p0.push(Seq::<char>::empty()));
        lemma_split_append(d, name);
        let ps = split_parts(j);
        assert(ps =~= p0.push(name));
        assert(ps.len() >= 2);
        assert(ps.drop_first() =~= p0.drop_first().push(name));
        let q = p0.drop_first().push(name);
        assert(q.drop_last() =~= p0.drop_first());
        assert(q.last() == name);
        assert(comp_of(name) == Comp::Normal(name));
        assert(body_comps(ps.drop_first()) == body_comps(p0.drop_first()).push(Comp::Normal(name)));
        let c = components(j);
        assert(c == head_comps(ps[0], true) + body_comps(ps.drop_first()));
        assert(c.last() == Comp::Normal(name));
    }
}

proof fn lemma_split_parts_no_slash(s: Seq<char>)
    ensures
        forall|i: int| 0 <= i < split_parts(s).len() ==> no_slash(#[trigger] split_parts(s)[i]),
    decreases s.len(),
{
    if s.len() > 0 {
        lemma_split_parts_no_slash(s.drop_last());
        lemma_split_parts_len(s.drop_last());
        let prev = split_parts(s.drop_last());
        if s.last() != '/' {
            let l = prev.last().push(s.last());
            assert(no_slash(prev[prev.len() - 1]));
            assert(no_slash(l));
            assert forall|i: int| 0 <= i < split_parts(s).len() implies no_slash(
                #[trigger] split_parts(s)[i],
            ) by {
                if i < prev.len() - 1 {
                    assert(split_parts(s)[i] == prev[i]);
                }
            }
        } else {
            assert forall|i: int| 0 <= i < split_parts(s).len() implies no_slash(
                #[trigger] split_parts(s)[i],
            ) by {
                if i < prev.len() {
                    assert(split_parts(s)[i] == prev[i]);
                }
            }
        }
    }
}

proof fn lemma_body_comps_no_slash(ps: Seq<Seq<char>>)
    requires
        forall|i: int| 0 <= i < ps.len() ==> no_slash(#[trigger] ps[i]),
    ensures
        forall|i: int|
            0 <= i < body_comps(ps).len() && #[trigger] body_comps(ps)[i] is Normal ==> no_slash(
                body_comps(ps)[i]->Normal_0,
            ),
    decreases ps.len(),
{
    if ps.len() > 0 {
        assert forall|i: int| 0 <= i < ps.drop_last().len() implies no_slash(
            #[trigger] ps.drop_last()[i],
        ) by {
            assert(ps.drop_last()[i] == ps[i]);
        }
        lemma_body_comps_no_slash(ps.drop_last());
        assert(no_slash(ps[ps.len() - 1]));
    }
}

/// A file name holds no `/`.
pub proof fn lemma_file_name_no_slash(s: Seq<char>)
    ensures
        file_name(s) matches Some(n) ==> no_slash(n) && n.len() > 0,
{
    lemma_split_parts_len(s);
    lemma_split_parts_no_slash(s);
    lemma_normal_components_nonempty(s);
    let ps = split_parts(s);
    assert forall|i: int| 0 <= i < ps.drop_first().len() implies no_slash(
        #[trigger] ps.drop_first()[i],
    ) by {
        assert(ps.drop_first()[i] == ps[i + 1]);
    }
    lemma_body_comps_no_slash(ps.drop_first());
    assert(no_slash(ps[0]));
    let h = head_comps(ps[0], ps.len() > 1);
    let b = body_comps(ps.drop_first());
    let c = components(s);
    if c.len() > 0 && c.last() is Normal {
        assert(c[c.len() - 1] is Normal);
        if c.len() - 1 >= h.len() {
            assert(c[c.len() - 1] == b[c.len() - 1 - h.len()]);
        } else {
            assert(c[c.len() - 1] == h[c.len() - 1]);
        }
    }
}

/// The last component, when it is a normal name.
pub open spec fn file_name(s: Seq<char>) -> Option<Seq<char>> {
    let c = components(s);
    if c.len() > 0 && c.last() is Normal {
        Some(c.last()->Normal_0)
    } else {
        None
    }
}

/// The final component of a path, when it is a normal name.
pub fn file_name_of(s: &str) -> (r: Option<Vec<char>>)
    ensures
        match r {
            Some(v) => file_name(s@) == Some(v@),
            None => file_name(s@) is None,
        },
{
    let mut c = components_of(s);
    let ghost cv = comps_view(c@);
    if c.len() == 0 {
        return None;
    }
    let last = c.pop().unwrap();
    assert(cv.last() == last@);
    match last {
        PathComponent::Normal(v) => Some(v),
        _ => None,
    }
}

/// Index of the last `.` in a name, or -1 when there is none.
pub open spec fn last_dot(n: Seq<char>) -> int
    decreases n.len(),
{
    if n.len() == 0 {
        -1
    } else if n.last() == '.' {
        n.len() - 1
    } else {
        last_dot(n.drop_last())
    }
}

pub proof fn lemma_last_dot(n: Seq<char>)
    ensures
        -1 <= last_dot(n) < n.len(),
        last_dot(n) >= 0 ==> n[last_dot(n)] == '.',
        forall|j: int| last_dot(n) < j < n.len() ==> n[j] != '.',
    decreases n.len(),
{
    if n.len() > 0 {
        lemma_last_dot(n.drop_last());
        assert forall|j: int| last_dot(n) < j < n.len() implies n[j] != '.' by {
            if j < n.len() - 1 {
                assert(n[j] == n.drop_last()[j]);
            }
        }
    }
}

/// The extension of a file name: the text after its last `.`, unless the
/// name has no `.` or its only `.` is the first character.
pub open spec fn name_extension(n: Seq<char>) -> Option<Seq<char>> {
    if last_dot(n) <= 0 {
        None
    } else {
        Some(n.subrange(last_dot(n) + 1, n.len() as int))
    }
}

/// The file stem of a name: the text before its last `.` (the whole name
/// when it has no extension).
pub open spec fn name_stem(n: Seq<char>) -> Seq<char> {
    if last_dot(n) <= 0 {
        n
    } else {
        n.subrange(0, last_dot(n))
    }
}

/// The extension of a path.
pub open spec fn extension(s: Seq<char>) -> Option<Seq<char>> {
    match file_name(s) {
        Some(n) => name_extension(n),
        None => None,
    }
}

fn find_last_dot(n: &Vec<char>) -> (r: usize)
    ensures
        last_dot(n@) <= 0 ==> r == 0,
        last_dot(n@) > 0 ==> r == last_dot(n@),
        r == 0 || r < n@.len(),
{
    proof {
        lemma_last_dot(n@);
    }
    let mut i: usize = n.len();
    while i > 0
        invariant
            i <= n.len(),
            forall|j: int| i <= j < n.len() ==> n@[j] != '.',
            -1 <= last_dot(n@) < n.len(),
            last_dot(n@) >= 0 ==> n@[last_dot(n@)] == '.',
            forall|j: int| last_dot(n@) < j < n.len() ==> n@[j] != '.',
        decreases i,
    {
        if n[i - 1] == '.' {
            return i - 1;
        }
        i = i - 1;
    }
    0
}

/// The extension of a file name (see [`name_extension`]).
pub fn name_extension_of(n: &Vec<char>) -> (r: Option<Vec<char>>)
    ensures
        match r {
            Some(e) => name_extension(n@) == Some(e@),
            None => name_extension(n@) is None,
        },
{
    let d = find_last_dot(n);
    if d == 0 {
        return None;
    }
    let mut e: Vec<char> = Vec::new();
    assert(d < n.len());
    let mut i = d + 1;
    while i < n.len()
        invariant
            d < i <= n.len(),
            e@ == n@.subrange(d + 1, i as int),
        decreases n.len() - i,
    {
        e.push(n[i]);
        assert(n@.subrange(d + 1, i + 1) =~= n@.subrange(d + 1, i as int).push(n@[i as int]));
        i = i + 1;
    }
    Some(e)
}

/// The stem of a file name (see [`name_stem`]).
pub fn name_stem_of(n: &Vec<char>) -> (r: Vec<char>)
    ensures
        r@ == name_stem(n@),
{
    let d = find_last_dot(n);
    let end = if d == 0 { n.len() } else { d };
    let mut e: Vec<char> = Vec::new();
    let mut i: usize = 0;
    while i < end
        invariant
            end <= n.len(),
            i <= end,
            e@ == n@.subrange(0, i as int),
        decreases end - i,
    {
        e.push(n[i]);
        assert(n@.subrange(0, i + 1) =~= n@.subrange(0, i as int).push(n@[i as int]));
        i = i + 1;
    }
    assert(d == 0 ==> n@.subrange(0, end as int) =~= n@);
    e
}

/// The extension of a path (see [`extension`]).
pub fn extension_of(s: &str) -> (r: Option<Vec<char>>)
    ensures
        match r {
            Some(e) => extension(s@) == Some(e@),
            None => extension(s@) is None,
        },
{
    match file_name_of(s) {
        Some(n) => name_extension_of(&n),
        None => None,
    }
}

/// The text a component is written as.
pub open spec fn comp_text(c: Comp) -> Seq<char> {
    match c {
        Comp::RootDir => seq!['/'],
        Comp::CurDir => dot(),
        Comp::ParentDir => dot_dot(),
        Comp::Normal(n) => n,
    }
}

/// Components written out with a `/` between them (none after the root).
pub open spec fn render(cs: Seq<Comp>) -> Seq<char>
    decreases cs.len(),
{
    if cs.len() == 0 {
        Seq::empty()
    } else {
        let r = cs.drop_last();
        if r.len() == 0 {
            comp_text(cs.last())
        } else if r.last() == Comp::RootDir {
            render(r) + comp_text(cs.last())
        } else {
            render(r) + seq!['/'] + comp_text(cs.last())
        }
    }
}

fn push_comp_text(s: &mut String, c: &PathComponent)
    ensures
        final(s)@ == old(s)@ + comp_text(c@),
{
    match c {
        PathComponent::RootDir => {
            push_char(s, '/');
            assert(seq!['/'] =~= Seq::<char>::empty().push('/'));
        },
        PathComponent::CurDir => {
            push_char(s, '.');
            assert(old(s)@ + dot() =~= old(s)@.push('.'));
        },
        PathComponent::ParentDir => {
            push_char(s, '.');
            push_char(s, '.');
            assert(old(s)@ + dot_dot() =~= old(s)@.push('.').push('.'));
        },
        PathComponent::Normal(v) => {
            push_all(s, v);
        },
    }
}

/// The path written by a sequence of components (see [`render`]).
pub fn render_components(cs: &Vec<PathComponent>) -> (r: String)
    ensures
        r@ == render(comps_view(cs@)),
{
    let mut r = String::new();
    let mut i: usize = 0;
    while i < cs.len()
        invariant
            i <= cs.len(),
            r@ == render(comps_view(cs@).take(i as int)),
        decreases cs.len() - i,
    {
        let ghost t = comps_view(cs@).take(i + 1);
        assert(t.drop_last() =~= comps_view(cs@).take(i as int));
        assert(t.last() == cs@[i as int]@);
        if i == 0 {
        } else {
            match &cs[i - 1] {
                PathComponent::RootDir => {},
                _ => {
                    push_char(&mut r, '/');
                },
            }
        }
        push_comp_text(&mut r, &cs[i]);
        assert(r@ =~= render(t));
        i = i + 1;
    }
    assert(comps_view(cs@).take(cs.len() as int) =~= comps_view(cs@));
    r
}

/// The components of the parent directory: all but the last component,
/// unless there are none or the last one is the root.
pub open spec fn parent_comps(c: Seq<Comp>) -> Option<Seq<Comp>> {
    if c.len() > 0 && c.last() != Comp::RootDir {
        Some(c.drop_last())
    } else {
        None
    }
}

/// The parent directory of a path, written out (see [`parent_comps`]).
pub open spec fn parent(s: Seq<char>) -> Option<Seq<char>> {
    match parent_comps(components(s)) {
        Some(c) => Some(render(c)),
        None => None,
    }
}

/// The parent directory of a path (see [`parent`]).
pub fn parent_of(s: &str) -> (r: Option<String>)
    ensures
        match r {
            Some(p) => parent(s@) == Some(p@),
            None => parent(s@) is None,
        },
{
    let mut c = components_of(s);
    let ghost cv = comps_view(c@);
    if c.len() == 0 {
        return None;
    }
    let last = c.pop().unwrap();
    assert(comps_view(c@) =~= cv.drop_last());
    match last {
        PathComponent::RootDir => None,
        _ => Some(render_components(&c)),
    }
}

fn component_eq(a: &PathComponent, b: &PathComponent) -> (r: bool)
    ensures
        r == (a@ == b@),
{
    match (a, b) {
        (PathComponent::RootDir, PathComponent::RootDir) => true,
        (PathComponent::CurDir, PathComponent::CurDir) => true,
        (PathComponent::ParentDir, PathComponent::ParentDir) => true,
        (PathComponent::Normal(x), PathComponent::Normal(y)) => crate::text::chars_eq(x, y),
        _ => false,
    }
}

/// Whether two component sequences are equal.
pub fn components_eq(a: &Vec<PathComponent>, b: &Vec<PathComponent>) -> (r: bool)
    ensures
        r == (comps_view(a@) == comps_view(b@)),
{
    if a.len() != b.len() {
        assert(comps_view(a@).len() != comps_view(b@).len());
        return false;
    }
    let mut i: usize = 0;
    while i < a.len()
        invariant
            a.len() == b.len(),
            i <= a.len(),
            forall|j: int| 0 <= j < i ==> a@[j]@ == b@[j]@,
        decreases a.len() - i,
    {
        if !component_eq(&a[i], &b[i]) {
            assert(comps_view(a@)[i as int] != comps_view(b@)[i as int]);
            return false;
        }
        i = i + 1;
    }
    assert(comps_view(a@) =~= comps_view(b@));
    true
}

/// Whether two paths name the same components (Unix path equality).
pub open spec fn same_path(a: Seq<char>, b: Seq<char>) -> bool {
    components(a) == components(b)
}

/// Whether two paths are equal component by component.
pub fn paths_equal(a: &str, b: &str) -> (r: bool)
    ensures
        r == same_path(a@, b@),
{
    let ca = components_of(a);
    let cb = components_of(b);
    components_eq(&ca, &cb)
}


/// `path` with the components of `base` taken off its front, written out;
/// `None` when `base`'s components are not a prefix of `path`'s.
pub open spec fn strip_prefix(path: Seq<char>, base: Seq<char>) -> Option<Seq<char>> {
    let cp = components(path);
    let cb = components(base);
    if cb.len() <= cp.len() && cp.take(cb.len() as int) == cb {
        Some(render(cp.skip(cb.len() as int)))
    } else {
        None
    }
}

/// `path` relative to `base` (see [`strip_prefix`]).
pub fn strip_prefix_of(path: &str, base: &str) -> (r: Option<String>)
    ensures
        match r {
            Some(t) => strip_prefix(path@, base@) == Some(t@),
            None => strip_prefix(path@, base@) is None,
        },
{
    let mut cp = components_of(path);
    let cb = components_of(base);
    let ghost vp = comps_view(cp@);
    let ghost vb = comps_view(cb@);
    if cb.len() > cp.len() {
        return None;
    }
    let mut i: usize = 0;
    while i < cb.len()
        invariant
            cb.len() <= cp.len(),
            vp == components(path@),
            vb == components(base@),
            vp == comps_view(cp@),
            vb == comps_view(cb@),
            i <= cb.len(),
            forall|j: int| 0 <= j < i ==> vp[j] == vb[j],
        decreases cb.len() - i,
    {
        if !component_eq(&cp[i], &cb[i]) {
            assert(vp.take(cb.len() as int)[i as int] != vb[i as int]);
            assert(vp.take(cb.len() as int) != vb);
            return None;
        }
        i = i + 1;
    }
    assert(vp.take(cb.len() as int) =~= vb);
    let rest = cp.split_off(cb.len());
    assert(comps_view(rest@) =~= vp.skip(cb.len() as int));
    Some(render_components(&rest))
}

/// Position of a component's kind in the order root < `.` < `..` < name.
pub open spec fn comp_rank(c: Comp) -> int {
    match c {
        Comp::RootDir => 0,
        Comp::CurDir => 1,
        Comp::ParentDir => 2,
        Comp::Normal(_) => 3,
    }
}

/// Lexicographic order of names, character by character (code points).
pub open spec fn chars_lt(a: Seq<char>, b: Seq<char>) -> bool
    decreases a.len(),
{
    if b.len() == 0 {
        false
    } else if a.len() == 0 {
        true
    } else if (a[0] as u32) < (b[0] as u32) {
        true
    } else if a[0] == b[0] {
        chars_lt(a.drop_first(), b.drop_first())
    } else {
        false
    }
}

/// Order of components: by kind, then names lexicographically.
pub open spec fn comp_lt(a: Comp, b: Comp) -> bool {
    if comp_rank(a) != comp_rank(b) {
        comp_rank(a) < comp_rank(b)
    } else {
        match (a, b) {
            (Comp::Normal(x), Comp::Normal(y)) => chars_lt(x, y),
            _ => false,
        }
    }
}

/// Order of paths: their components compared lexicographically.
pub open spec fn comps_lt(a: Seq<Comp>, b: Seq<Comp>) -> bool
    decreases a.len(),
{
    if b.len() == 0 {
        false
    } else if a.len() == 0 {
        true
    } else if comp_lt(a[0], b[0]) {
        true
    } else if a[0] == b[0] {
        comps_lt(a.drop_first(), b.drop_first())
    } else {
        false
    }
}

/// Whether path `a` sorts before path `b`.
pub open spec fn path_lt(a: Seq<char>, b: Seq<char>) -> bool {
    comps_lt(components(a), components(b))
}

/// No two character sequences each sort before the other.
pub proof fn lemma_chars_lt_asym(a: Seq<char>, b: Seq<char>)
    ensures
        !(chars_lt(a, b) && chars_lt(b, a)),
    decreases a.len(),
{
    if a.len() > 0 && b.len() > 0 && a[0] == b[0] {
        lemma_chars_lt_asym(a.drop_first(), b.drop_first());
    }
}

/// No two components each sort before the other.
pub proof fn lemma_comp_lt_asym(a: Comp, b: Comp)
    ensures
        !(comp_lt(a, b) && comp_lt(b, a)),
{
    match (a, b) {
        (Comp::Normal(x), Comp::Normal(y)) => lemma_chars_lt_asym(x, y),
        _ => {},
    }
}

/// No two component sequences each sort before the other.
pub proof fn lemma_comps_lt_asym(a: Seq<Comp>, b: Seq<Comp>)
    ensures
        !(comps_lt(a, b) && comps_lt(b, a)),
    decreases a.len(),
{
    if a.len() > 0 && b.len() > 0 {
        lemma_comp_lt_asym(a[0], b[0]);
        if a[0] == b[0] {
            lemma_comps_lt_asym(a.drop_first(), b.drop_first());
        }
    }
}

/// Whether name `a` sorts before name `b`.
pub fn chars_less(a: &Vec<char>, b: &Vec<char>) -> (r: bool)
    ensures
        r == chars_lt(a@, b@),
{
    let mut i: usize = 0;
    assert(a@.skip(0) =~= a@);
    assert(b@.skip(0) =~= b@);
    while i < a.len() && i < b.len()
        invariant
            i <= a.len(),
            i <= b.len(),
            forall|j: int| 0 <= j < i ==> a@[j] == b@[j],
            chars_lt(a@, b@) == chars_lt(a@.skip(i as int), b@.skip(i as int)),
        decreases a.len() - i,
    {
        let ghost sa = a@.skip(i as int);
        let ghost sb = b@.skip(i as int);
        assert(sa[0] == a@[i as int]);
        assert(sb[0] == b@[i as int]);
        if (a[i] as u32) < (b[i] as u32) {
            return true;
        }
        if a[i] != b[i] {
            return false;
        }
        assert(sa.drop_first() =~= a@.skip(i + 1));
        assert(sb.drop_first() =~= b@.skip(i + 1));
        i = i + 1;
    }
    i < b.len()
}

fn comp_rank_of(c: &PathComponent) -> (r: u8)
    ensures
        r == comp_rank(c@),
{
    match c {
        PathComponent::RootDir => 0,
        PathComponent::CurDir => 1,
        PathComponent::ParentDir => 2,
        PathComponent::Normal(_) => 3,
    }
}

fn component_less(a: &PathComponent, b: &PathComponent) -> (r: bool)
    ensures
        r == comp_lt(a@, b@),
{
    let ra = comp_rank_of(a);
    let rb = comp_rank_of(b);
    if ra != rb {
        return ra < rb;
    }
    match (a, b) {
        (PathComponent::Normal(x), PathComponent::Normal(y)) => chars_less(x, y),
        _ => false,
    }
}

/// Whether component sequence `a` sorts before `b`.
pub fn components_less(a: &Vec<PathComponent>, b: &Vec<PathComponent>) -> (r: bool)
    ensures
        r == comps_lt(comps_view(a@), comps_view(b@)),
{
    let ghost va = comps_view(a@);
    let ghost vb = comps_view(b@);
    let mut i: usize = 0;
    assert(va.skip(0) =~= va);
    assert(vb.skip(0) =~= vb);
    while i < a.len() && i < b.len()
        invariant
            va == comps_view(a@),
            vb == comps_view(b@),
            i <= a.len(),
            i <= b.len(),
            comps_lt(va, vb) == comps_lt(va.skip(i as int), vb.skip(i as int)),
        decreases a.len() - i,
    {
        let ghost sa = va.skip(i as int);
        let ghost sb = vb.skip(i as int);
        assert(sa[0] == a@[i as int]@);
        assert(sb[0] == b@[i as int]@);
        if component_less(&a[i], &b[i]) {
            return true;
        }
        if !component_eq(&a[i], &b[i]) {
            return false;
        }
        assert(sa.drop_first() =~= va.skip(i + 1));
        assert(sb.drop_first() =~= vb.skip(i + 1));
        i = i + 1;
    }
    i < b.len()
}

} // verus!
