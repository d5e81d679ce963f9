//! Decoding for review: the request and result types, the cache of decoded
//! images, the look-ahead window, and the sizing decisions of the decoder.
//! The worker threads and channels live outside the library.

pub mod cache;
pub mod frame;
pub mod request;
pub mod worker;

pub use cache::DecodedCache;
pub use request::{DecodeJob, DecodeResult, DecodedImage};

use vstd::prelude::*;

verus! {

/// The look-ahead/behind window around `current`, clamped to `[0, len)`.
pub open spec fn window_spec(current: int, len: int, behind: int, ahead: int) -> (int, int) {
    if len == 0 {
        (0, 0)
    } else {
        (
            if current >= behind {
                current - behind
            } else {
                0
            },
            if current + ahead + 1 <= len {
                current + ahead + 1
            } else {
                len
            },
        )
    }
}

/// Compute the look-ahead/behind window around `current`, clamped to
/// `[0, len)`. Forward-biased, since review is normally a forward march.
pub fn window_around(current: usize, len: usize, behind: usize, ahead: usize) -> (r:
    std::ops::Range<usize>)
    requires
        len == 0 || current + ahead + 1 <= usize::MAX,
    ensures
        (r.start as int, r.end as int) == window_spec(
            current as int,
            len as int,
            behind as int,
            ahead as int,
        ),
{
    if len == 0 {
        return 0..0;
    }
    let start = if current >= behind {
        current - behind
    } else {
        0
    };
    let end = if current + ahead + 1 <= len {
        current + ahead + 1
    } else {
        len
    };
    start..end
}

/// Law of the window: it lies within `[0, len)`, and when `current` is a
/// valid position it contains it.
pub proof fn lemma_window_bounds(current: int, len: int, behind: int, ahead: int)
    requires
        0 <= current,
        0 <= len,
        0 <= behind,
        0 <= ahead,
    ensures
        ({
            let (s, e) = window_spec(current, len, behind, ahead);
            &&& 0 <= s
            &&& e <= len
            &&& current < len ==> s <= current < e
        }),
{
}

/// How many decode workers to run for a machine with `parallelism` hardware
/// threads (4 assumed when unknown): one core is left free for the UI, and
/// the count is kept within 2..=8.
pub fn worker_count_for(parallelism: Option<usize>) -> (r: usize)
    ensures
        2 <= r <= 8,
        ({
            let p = match parallelism {
                Some(n) => n as int,
                None => 4,
            };
            r == if p - 1 < 2 {
                2
            } else if p - 1 > 8 {
                8
            } else {
                p - 1
            }
        }),
{
    let p = match parallelism {
        Some(n) => n,
        None => 4,
    };
    let less = if p >= 1 {
        p - 1
    } else {
        0
    };
    if less < 2 {
        2
    } else if less > 8 {
        8
    } else {
        less
    }
}

} // verus!
