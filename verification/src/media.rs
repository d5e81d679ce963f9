//! Kinds of media files, told apart by file extension alone (no content
//! sniffing), which keeps a scan over tens of thousands of files cheap.

use vstd::prelude::*;
use crate::path::{extension, extension_of};

verus! {

/// Broad category of a media file.
#[derive(Debug, Clone, Copy, PartialEq, Eq, Hash, Structural)]
pub enum MediaKind {
    Photo,
    Video,
}

/// ASCII upper-case letters mapped to lower case; every other character kept.
pub open spec fn ascii_lower(c: char) -> char {
    if 'A' <= c && c <= 'Z' {
        ((c as u32) + 32) as char
    } else {
        c
    }
}

pub open spec fn ascii_lower_seq(s: Seq<char>) -> Seq<char> {
    s.map_values(|c: char| ascii_lower(c))
}

/// Extensions (lower case) of photos.
pub open spec fn is_photo_ext(e: Seq<char>) -> bool {
    e == seq!['j', 'p', 'g'] || e == seq!['j', 'p', 'e', 'g'] || e == seq!['p', 'n', 'g']
        || e == seq!['h', 'e', 'i', 'c'] || e == seq!['h', 'e', 'i', 'f']
}

/// Extensions (lower case) of videos.
pub open spec fn is_video_ext(e: Seq<char>) -> bool {
    e == seq!['m', 'p', '4'] || e == seq!['m', 'o', 'v'] || e == seq!['m', '4', 'v']
}

/// The kind of media a lower-case extension stands for.
pub open spec fn kind_of_ext(e: Seq<char>) -> Option<MediaKind> {
    if is_photo_ext(e) {
        Some(MediaKind::Photo)
    } else if is_video_ext(e) {
        Some(MediaKind::Video)
    } else {
        None
    }
}

/// The kind of media a path holds: read from its extension, ignoring ASCII
/// case; `None` when there is no extension or it is not a known one.
pub open spec fn classify_spec(path: Seq<char>) -> Option<MediaKind> {
    match extension(path) {
        Some(e) => kind_of_ext(ascii_lower_seq(e)),
        None => None,
    }
}

pub fn lower_char(c: char) -> (r: char)
    ensures
        r == ascii_lower(c),
{
    if 'A' <= c && c <= 'Z' {
        let b = (c as u8) + 32;
        (b as char)
    } else {
        c
    }
}

/// The characters with ASCII letters lowered.
pub fn lower_chars(v: &Vec<char>) -> (r: Vec<char>)
    ensures
        r@ == ascii_lower_seq(v@),
{
    let mut r: Vec<char> = Vec::new();
    let mut i: usize = 0;
    while i < v.len()
        invariant
            i <= v.len(),
            r@ == ascii_lower_seq(v@.take(i as int)),
        decreases v.len() - i,
    {
        let c = lower_char(v[i]);
        r.push(c);
        assert(ascii_lower_seq(v@.take(i + 1)) =~= ascii_lower_seq(v@.take(i as int)).push(c));
        i = i + 1;
    }
    assert(v@.take(v.len() as int) =~= v@);
    r
}

fn eq3(e: &Vec<char>, a: char, b: char, c: char) -> (r: bool)
    ensures
        r == (e@ == seq![a, b, c]),
{
    let r = e.len() == 3 && e[0] == a && e[1] == b && e[2] == c;
    if r {
        assert(e@ =~= seq![a, b, c]);
    }
    r
}

fn eq4(e: &Vec<char>, a: char, b: char, c: char, d: char) -> (r: bool)
    ensures
        r == (e@ == seq![a, b, c, d]),
{
    let r = e.len() == 4 && e[0] == a && e[1] == b && e[2] == c && e[3] == d;
    if r {
        assert(e@ =~= seq![a, b, c, d]);
    }
    r
}

/// The kind of media a lower-case extension stands for (see [`kind_of_ext`]).
pub fn kind_of_extension(e: &Vec<char>) -> (r: Option<MediaKind>)
    ensures
        r == kind_of_ext(e@),
{
    if eq3(e, 'j', 'p', 'g') || eq4(e, 'j', 'p', 'e', 'g') || eq3(e, 'p', 'n', 'g') || eq4(
        e,
        'h',
        'e',
        'i',
        'c',
    ) || eq4(e, 'h', 'e', 'i', 'f') {
        Some(MediaKind::Photo)
    } else if eq3(e, 'm', 'p', '4') || eq3(e, 'm', 'o', 'v') || eq3(e, 'm', '4', 'v') {
        Some(MediaKind::Video)
    } else {
        None
    }
}

/// The kind of media at `path`, from its extension regardless of ASCII case.
pub fn classify(path: &str) -> (r: Option<MediaKind>)
    ensures
        r == classify_spec(path@),
{
    match extension_of(path) {
        Some(e) => {
            let low = lower_chars(&e);
            kind_of_extension(&low)
        },
        None => None,
    }
}

/// Whether `e` spells a word in any ASCII case: the same length as its
/// lower-case spelling `lower`, and each character that of `lower` or of
/// the upper-case spelling `upper`.
pub open spec fn spells_either_case(e: Seq<char>, lower: Seq<char>, upper: Seq<char>) -> bool {
    &&& e.len() == lower.len()
    &&& forall|i: int| 0 <= i < e.len() ==> e[i] == lower[i] || e[i] == upper[i]
}

proof fn lemma_lower_char_inverse(c: char, l: char, u: char)
    requires
        ascii_lower(c) == l,
        ascii_lower(u) == l,
        'A' <= u && u <= 'Z' ==> (u as u32) + 32 == l as u32,
        !('A' <= l && l <= 'Z'),
        ('a' <= l && l <= 'z') ==> 'A' <= u && u <= 'Z',
    ensures
        c == l || c == u,
{
    if 'A' <= c && c <= 'Z' {
        assert((c as u32) + 32 == l as u32);
        if 'A' <= u && u <= 'Z' {
            assert(c as u32 == u as u32);
        }
    }
}

proof fn lemma_spelled_if_lowered(e: Seq<char>, lower: Seq<char>, upper: Seq<char>)
    requires
        ascii_lower_seq(e) == lower,
        upper.len() == lower.len(),
        forall|i: int|
            0 <= i < lower.len() ==> ascii_lower(#[trigger] upper[i]) == lower[i] && !('A' <= lower[i]
                && lower[i] <= 'Z') && (('A' <= upper[i] && upper[i] <= 'Z') ==> (upper[i] as u32)
                + 32 == lower[i] as u32) && (('a' <= lower[i] && lower[i] <= 'z') ==> 'A' <= upper[i]
                && upper[i] <= 'Z'),
    ensures
        spells_either_case(e, lower, upper),
{
    assert forall|i: int| 0 <= i < e.len() implies e[i] == lower[i] || e[i] == upper[i] by {
        assert(ascii_lower_seq(e)[i] == ascii_lower(e[i]));
        assert(ascii_lower(upper[i]) == lower[i]);
        lemma_lower_char_inverse(e[i], lower[i], upper[i]);
    }
}

proof fn lemma_lowered_spelling(e: Seq<char>, lower: Seq<char>, upper: Seq<char>)
    requires
        spells_either_case(e, lower, upper),
        upper.len() == lower.len(),
        forall|i: int| 0 <= i < lower.len() ==> ascii_lower(#[trigger] lower[i]) == lower[i] && ascii_lower(upper[i]) == lower[i],
    ensures
        ascii_lower_seq(e) == lower,
{
    assert forall|i: int| 0 <= i < e.len() implies #[trigger] ascii_lower_seq(e)[i] == lower[i] by {
        assert(ascii_lower(lower[i]) == lower[i]);
    }
    assert(ascii_lower_seq(e) =~= lower);
}

/// Law of classification: a path whose extension is `mp4`, `mov` or `m4v`
/// in any ASCII case holds a video; one whose extension is `jpg`, `jpeg`,
/// `png`, `heic` or `heif` in any ASCII case holds a photo; a path without
/// an extension is not media.
pub proof fn lemma_known_extensions(path: Seq<char>)
    ensures
        extension(path) is None ==> classify_spec(path) is None,
        (extension(path) matches Some(e) && (spells_either_case(e, "mp4"@, "MP4"@)
            || spells_either_case(e, "mov"@, "MOV"@) || spells_either_case(e, "m4v"@, "M4V"@)))
            ==> classify_spec(path) == Some(MediaKind::Video),
        (extension(path) matches Some(e) && (spells_either_case(e, "jpg"@, "JPG"@)
            || spells_either_case(e, "jpeg"@, "JPEG"@) || spells_either_case(e, "png"@, "PNG"@)
            || spells_either_case(e, "heic"@, "HEIC"@) || spells_either_case(e, "heif"@, "HEIF"@)))
            ==> classify_spec(path) == Some(MediaKind::Photo),
        (extension(path) matches Some(e) && !(spells_either_case(e, "mp4"@, "MP4"@) || spells_either_case(e, "mov"@, "MOV"@) || spells_either_case(e, "m4v"@, "M4V"@) || spells_either_case(e, "jpg"@, "JPG"@) || spells_either_case(e, "jpeg"@, "JPEG"@) || spells_either_case(e, "png"@, "PNG"@) || spells_either_case(e, "heic"@, "HEIC"@) || spells_either_case(e, "heif"@, "HEIF"@))) ==> classify_spec(path) is None,
{
    reveal_strlit("mp4");
    reveal_strlit("MP4");
    reveal_strlit("mov");
    reveal_strlit("MOV");
    reveal_strlit("m4v");
    reveal_strlit("M4V");
    reveal_strlit("jpg");
    reveal_strlit("JPG");
    reveal_strlit("jpeg");
    reveal_strlit("JPEG");
    reveal_strlit("png");
    reveal_strlit("PNG");
    reveal_strlit("heic");
    reveal_strlit("HEIC");
    reveal_strlit("heif");
    reveal_strlit("HEIF");
    if let Some(e) = extension(path) {
        if ascii_lower_seq(e) == seq!['m', 'p', '4'] {
            assert("mp4"@ =~= seq!['m', 'p', '4']);
            lemma_spelled_if_lowered(e, "mp4"@, "MP4"@);
        }
        if ascii_lower_seq(e) == seq!['m', 'o', 'v'] {
            assert("mov"@ =~= seq!['m', 'o', 'v']);
            lemma_spelled_if_lowered(e, "mov"@, "MOV"@);
        }
        if ascii_lower_seq(e) == seq!['m', '4', 'v'] {
            assert("m4v"@ =~= seq!['m', '4', 'v']);
            lemma_spelled_if_lowered(e, "m4v"@, "M4V"@);
        }
        if ascii_lower_seq(e) == seq!['j', 'p', 'g'] {
            assert("jpg"@ =~= seq!['j', 'p', 'g']);
            lemma_spelled_if_lowered(e, "jpg"@, "JPG"@);
        }
        if ascii_lower_seq(e) == seq!['j', 'p', 'e', 'g'] {
            assert("jpeg"@ =~= seq!['j', 'p', 'e', 'g']);
            lemma_spelled_if_lowered(e, "jpeg"@, "JPEG"@);
        }
        if ascii_lower_seq(e) == seq!['p', 'n', 'g'] {
            assert("png"@ =~= seq!['p', 'n', 'g']);
            lemma_spelled_if_lowered(e, "png"@, "PNG"@);
        }
        if ascii_lower_seq(e) == seq!['h', 'e', 'i', 'c'] {
            assert("heic"@ =~= seq!['h', 'e', 'i', 'c']);
            lemma_spelled_if_lowered(e, "heic"@, "HEIC"@);
        }
        if ascii_lower_seq(e) == seq!['h', 'e', 'i', 'f'] {
            assert("heif"@ =~= seq!['h', 'e', 'i', 'f']);
            lemma_spelled_if_lowered(e, "heif"@, "HEIF"@);
        }
        if spells_either_case(e, "mp4"@, "MP4"@) {
            assert("mp4"@ =~= seq!['m', 'p', '4']);
            lemma_lowered_spelling(e, "mp4"@, "MP4"@);
        }
        if spells_either_case(e, "mov"@, "MOV"@) {
            assert("mov"@ =~= seq!['m', 'o', 'v']);
            lemma_lowered_spelling(e, "mov"@, "MOV"@);
        }
        if spells_either_case(e, "m4v"@, "M4V"@) {
            assert("m4v"@ =~= seq!['m', '4', 'v']);
            lemma_lowered_spelling(e, "m4v"@, "M4V"@);
        }
        if spells_either_case(e, "jpg"@, "JPG"@) {
            assert("jpg"@ =~= seq!['j', 'p', 'g']);
            lemma_lowered_spelling(e, "jpg"@, "JPG"@);
        }
        if spells_either_case(e, "jpeg"@, "JPEG"@) {
            assert("jpeg"@ =~= seq!['j', 'p', 'e', 'g']);
            lemma_lowered_spelling(e, "jpeg"@, "JPEG"@);
        }
        if spells_either_case(e, "png"@, "PNG"@) {
            assert("png"@ =~= seq!['p', 'n', 'g']);
            lemma_lowered_spelling(e, "png"@, "PNG"@);
        }
        if spells_either_case(e, "heic"@, "HEIC"@) {
            assert("heic"@ =~= seq!['h', 'e', 'i', 'c']);
            lemma_lowered_spelling(e, "heic"@, "HEIC"@);
        }
        if spells_either_case(e, "heif"@, "HEIF"@) {
            assert("heif"@ =~= seq!['h', 'e', 'i', 'f']);
            lemma_lowered_spelling(e, "heif"@, "HEIF"@);
        }
    }
}

} // verus!
