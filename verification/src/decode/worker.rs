//! The sizing and orientation decisions of the decoder (the decoding and
//! resampling themselves are done by image libraries outside).

use vstd::prelude::*;
use crate::media::{ascii_lower_seq, lower_chars};
use crate::path::{extension, extension_of};

verus! {

/// `a / b` rounded to the nearest integer, halves up.
pub open spec fn div_round(a: nat, b: nat) -> nat {
    (2 * a + b) / (2 * b)
}

/// The size an image of `width` x `height` is shown at so that its long
/// edge is at most `target_long_edge` (0: no limit): never upscaled; when
/// scaled down, each side is the side times target / long edge, rounded to
/// the nearest integer (halves up) and at least 1. The rounding is of the
/// exact quotient: where a side lands on a half, such as the 11 of an
/// 11 x 22 image at target 15 (11 * 15 / 22 = 7.5), it gives 8, where
/// multiplying by the scale in `f64` lands just below the half and gives 7.
pub open spec fn scaled_dims_spec(width: u32, height: u32, target_long_edge: u32) -> (u32, u32) {
    let long_edge = if width >= height {
        width
    } else {
        height
    };
    if long_edge <= target_long_edge || target_long_edge == 0 {
        (width, height)
    } else {
        let w = div_round(width as nat * target_long_edge as nat, long_edge as nat);
        let h = div_round(height as nat * target_long_edge as nat, long_edge as nat);
        ((if w >= 1 {
            w
        } else {
            1
        }) as u32, (if h >= 1 {
            h
        } else {
            1
        }) as u32)
    }
}

fn scale_side(side: u32, target: u32, long_edge: u32) -> (r: u32)
    requires
        side <= long_edge,
        0 < target < long_edge,
    ensures
        r == (if div_round(side as nat * target as nat, long_edge as nat) >= 1 {
            div_round(side as nat * target as nat, long_edge as nat)
        } else {
            1
        }),
{
    assert((side as int) * (target as int) <= 0xffff_ffff * 0xffff_ffff) by (nonlinear_arith)
        requires
            0 <= side <= 0xffff_ffff,
            0 <= target <= 0xffff_ffff,
    ;
    let p: u128 = (side as u128) * (target as u128);
    let num: u128 = 2 * p + (long_edge as u128);
    let den: u128 = 2 * (long_edge as u128);
    let q = num / den;
    proof {
        let a = side as nat * target as nat;
        assert(a <= long_edge as nat * target as nat) by (nonlinear_arith)
            requires
                a == side as nat * target as nat,
                side <= long_edge,
        ;
        assert((2 * a + long_edge as nat) / (2 * long_edge as nat) <= target as nat) by (
        nonlinear_arith)
            requires
                a <= long_edge as nat * target as nat,
                long_edge > 0,
        ;
        assert(p as nat == a);
    }
    let q32 = q as u32;
    if q32 >= 1 {
        q32
    } else {
        1
    }
}

/// The size an image is shown at (see [`scaled_dims_spec`]).
pub fn scaled_dims(width: u32, height: u32, target_long_edge: u32) -> (r: (u32, u32))
    ensures
        r == scaled_dims_spec(width, height, target_long_edge),
{
    let long_edge = if width >= height {
        width
    } else {
        height
    };
    if long_edge <= target_long_edge || target_long_edge == 0 {
        return (width, height);
    }
    (scale_side(width, target_long_edge, long_edge), scale_side(height, target_long_edge, long_edge))
}

proof fn lemma_div_round_exact(l: nat, t: nat)
    requires
        l > 0,
    ensures
        div_round(l * t, l) == t,
{
    let x = 2 * (l * t) + l;
    assert(x == t * (2 * l) + l) by (nonlinear_arith)
        requires
            x == 2 * (l * t) + l,
    ;
    vstd::arithmetic::div_mod::lemma_fundamental_div_mod_converse(x as int, (2 * l) as int, t as int, l as int);
}

proof fn lemma_div_round_le(s: nat, t: nat, l: nat)
    requires
        l > 0,
        t < l,
    ensures
        div_round(s * t, l) <= s,
{
    let x = 2 * (s * t) + l;
    assert(x < (2 * l) * (s + 1)) by (nonlinear_arith)
        requires
            x == 2 * (s * t) + l,
            t < l,
            l > 0,
    ;
    if x / (2 * l) > s {
        vstd::arithmetic::div_mod::lemma_fundamental_div_mod(x as int, (2 * l) as int);
        vstd::arithmetic::div_mod::lemma_mod_pos_bound(x as int, (2 * l) as int);
        assert((2 * l) * (x / (2 * l)) >= (2 * l) * (s + 1)) by (nonlinear_arith)
            requires
                x / (2 * l) >= s + 1,
                l > 0,
        ;
    }
}

/// Laws of the display size: an image is never made larger (for sides of
/// at least one pixel), and when it is scaled down its long edge becomes
/// exactly the target.
pub proof fn lemma_scaled_dims_laws(width: u32, height: u32, target_long_edge: u32)
    ensures
        ({
            let (w, h) = scaled_dims_spec(width, height, target_long_edge);
            let long_edge = if width >= height {
                width
            } else {
                height
            };
            &&& (width >= 1 && height >= 1) ==> w <= width && h <= height
            &&& (target_long_edge > 0 && long_edge > target_long_edge) ==> (if width >= height {
                w == target_long_edge && h <= w
            } else {
                h == target_long_edge && w <= h
            })
        }),
{
    let long_edge = if width >= height {
        width
    } else {
        height
    };
    let t = target_long_edge as nat;
    let l = long_edge as nat;
    if target_long_edge > 0 && long_edge > target_long_edge {
        lemma_div_round_exact(l, t);
        lemma_div_round_le(width as nat, t, l);
        lemma_div_round_le(height as nat, t, l);
        if width >= height {
            assert(height as nat * t <= l * t) by (nonlinear_arith)
                requires
                    height <= l,
            ;
            vstd::arithmetic::div_mod::lemma_div_is_ordered(
                (2 * (height as nat * t) + l) as int,
                (2 * (l * t) + l) as int,
                (2 * l) as int,
            );
        } else {
            assert(width as nat * t <= l * t) by (nonlinear_arith)
                requires
                    width <= l,
            ;
            vstd::arithmetic::div_mod::lemma_div_is_ordered(
                (2 * (width as nat * t) + l) as int,
                (2 * (l * t) + l) as int,
                (2 * l) as int,
            );
        }
    }
}

/// Whether a path names a JPEG file: its extension is `jpg` or `jpeg` in
/// any ASCII case.
pub open spec fn is_jpeg_spec(path: Seq<char>) -> bool {
    match extension(path) {
        Some(e) => ascii_lower_seq(e) == seq!['j', 'p', 'g'] || ascii_lower_seq(e) == seq![
            'j',
            'p',
            'e',
            'g',
        ],
        None => false,
    }
}

/// Whether a path names a JPEG file (see [`is_jpeg_spec`]); those are
/// decoded through the scaled JPEG decoder first.
pub fn is_jpeg(path: &str) -> (r: bool)
    ensures
        r == is_jpeg_spec(path@),
{
    match extension_of(path) {
        Some(e) => {
            let l = lower_chars(&e);
            let r = (l.len() == 3 && l[0] == 'j' && l[1] == 'p' && l[2] == 'g') || (l.len() == 4
                && l[0] == 'j' && l[1] == 'p' && l[2] == 'e' && l[3] == 'g');
            assert(r ==> (l@ =~= seq!['j', 'p', 'g'] || l@ =~= seq!['j', 'p', 'e', 'g']));
            r
        },
        None => false,
    }
}

/// How to turn a decoded image upright, from its EXIF orientation tag.
#[derive(Debug, Clone, Copy, PartialEq, Eq, Structural)]
pub enum OrientationFix {
    Keep,
    FlipHorizontal,
    Rotate180,
    FlipVertical,
    /// Rotate 90 degrees clockwise, then flip horizontally.
    Rotate90FlipHorizontal,
    Rotate90,
    /// Rotate 270 degrees clockwise, then flip horizontally.
    Rotate270FlipHorizontal,
    Rotate270,
}

/// The fix for EXIF orientation `orientation` (1 and unknown values: none).
pub fn orientation_fix(orientation: u32) -> (r: OrientationFix)
    ensures
        r == match orientation {
            2 => OrientationFix::FlipHorizontal,
            3 => OrientationFix::Rotate180,
            4 => OrientationFix::FlipVertical,
            5 => OrientationFix::Rotate90FlipHorizontal,
            6 => OrientationFix::Rotate90,
            7 => OrientationFix::Rotate270FlipHorizontal,
            8 => OrientationFix::Rotate270,
            _ => OrientationFix::Keep,
        },
{
    match orientation {
        2 => OrientationFix::FlipHorizontal,
        3 => OrientationFix::Rotate180,
        4 => OrientationFix::FlipVertical,
        5 => OrientationFix::Rotate90FlipHorizontal,
        6 => OrientationFix::Rotate90,
        7 => OrientationFix::Rotate270FlipHorizontal,
        8 => OrientationFix::Rotate270,
        _ => OrientationFix::Keep,
    }
}

/// A side of `dimension` pixels scaled by `num / denom`, rounded up (the
/// JPEG decoder's scaling rule).
pub open spec fn scale_by(dimension: nat, num: nat, denom: nat) -> nat {
    ((dimension * num + denom - 1) as nat) / denom
}

/// Whether factor `f` is one the JPEG decoder may use for a long edge of
/// `long_edge` and a target of `target`: scaled, the long edge is still at
/// least the target.
pub open spec fn factor_reaches(f: (usize, usize), long_edge: nat, target: nat) -> bool {
    scale_by(long_edge, f.0 as nat, f.1 as nat) >= target
}

/// The JPEG decoder's scaling factor for a long edge of `long_edge` and a
/// target long edge: none (1/1) when there is no target or the image is no
/// larger; otherwise, among `factors`, the first that gives the smallest
/// long edge still reaching the target (1/1 when none reaches it).
pub open spec fn chosen_factor(
    long_edge: nat,
    target: nat,
    factors: Seq<(usize, usize)>,
    r: (usize, usize),
) -> bool {
    if target == 0 || long_edge <= target {
        r == (1usize, 1usize)
    } else if exists|i: int| 0 <= i < factors.len() && factor_reaches(factors[i], long_edge, target) {
        exists|i: int|
            0 <= i < factors.len() && r == factors[i] && factor_reaches(factors[i], long_edge, target)
                && (forall|k: int|
                0 <= k < factors.len() && factor_reaches(factors[k], long_edge, target) ==> scale_by(
                    long_edge,
                    factors[k].0 as nat,
                    factors[k].1 as nat,
                ) >= scale_by(long_edge, r.0 as nat, r.1 as nat)) && (forall|k: int|
                0 <= k < i && factor_reaches(factors[k], long_edge, target) ==> scale_by(
                    long_edge,
                    factors[k].0 as nat,
                    factors[k].1 as nat,
                ) > scale_by(long_edge, r.0 as nat, r.1 as nat))
    } else {
        r == (1usize, 1usize)
    }
}

/// Factors the decoder can apply to a long edge without overflow.
pub open spec fn factors_fit(long_edge: nat, factors: Seq<(usize, usize)>) -> bool {
    forall|i: int|
        0 <= i < factors.len() ==> factors[i].1 >= 1 && long_edge * factors[i].0 + factors[i].1
            <= usize::MAX
}

/// The scaling factor (numerator, denominator) to decode a JPEG with (see
/// [`chosen_factor`]).
pub fn choose_scaling_factor(long_edge: usize, target_long_edge: u32, factors: &Vec<(usize, usize)>) -> (r: (
    usize,
    usize,
))
    requires
        factors_fit(long_edge as nat, factors@),
    ensures
        chosen_factor(long_edge as nat, target_long_edge as nat, factors@, r),
{
    if target_long_edge == 0 || long_edge <= target_long_edge as usize {
        return (1, 1);
    }
    let target = target_long_edge as usize;
    let mut best: Option<(usize, usize, usize)> = None;
    let mut i: usize = 0;
    while i < factors.len()
        invariant
            factors_fit(long_edge as nat, factors@),
            target == target_long_edge as nat,
            target > 0,
            long_edge > target,
            i <= factors@.len(),
            match best {
                None => forall|k: int| 0 <= k < i ==> !factor_reaches(factors@[k], long_edge as nat, target as nat),
                Some((bi, bnum, bden)) => {
                    &&& bi < i
                    &&& (bnum, bden) == factors@[bi as int]
                    &&& factor_reaches(factors@[bi as int], long_edge as nat, target as nat)
                    &&& forall|k: int|
                        0 <= k < i && factor_reaches(factors@[k], long_edge as nat, target as nat)
                            ==> scale_by(long_edge as nat, factors@[k].0 as nat, factors@[k].1 as nat)
                            >= scale_by(long_edge as nat, bnum as nat, bden as nat)
                    &&& forall|k: int|
                        0 <= k < bi && factor_reaches(factors@[k], long_edge as nat, target as nat)
                            ==> scale_by(long_edge as nat, factors@[k].0 as nat, factors@[k].1 as nat)
                            > scale_by(long_edge as nat, bnum as nat, bden as nat)
                },
            },
        decreases factors@.len() - i,
    {
        let (num, den) = factors[i];
        assert(long_edge as nat * num as nat + den as nat <= usize::MAX);
        let scaled = (long_edge * num + den - 1) / den;
        assert(scaled == scale_by(long_edge as nat, num as nat, den as nat));
        if scaled >= target {
            match best {
                None => {
                    best = Some((i, num, den));
                },
                Some((bi, bnum, bden)) => {
                    assert(long_edge as nat * bnum as nat + bden as nat <= usize::MAX);
                    let bscaled = (long_edge * bnum + bden - 1) / bden;
                    if scaled < bscaled {
                        best = Some((i, num, den));
                    }
                },
            }
        }
        i = i + 1;
    }
    match best {
        Some((bi, bnum, bden)) => (bnum, bden),
        None => (1, 1),
    }
}

} // verus!
