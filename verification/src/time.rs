//! Points in time, in UTC.

use vstd::prelude::*;

verus! {

/// A point in time: whole seconds since 1970-01-01 00:00:00 UTC and the
/// nanoseconds past that second (above one billion only inside a leap
/// second).
#[derive(Debug, Clone, Copy, PartialEq, Eq, Structural)]
pub struct Timestamp {
    pub secs: i64,
    pub nanos: u32,
}

/// The earliest and latest seconds from the epoch that chrono can hold as
/// a date (see [`in_calendar_range`]).
pub const EARLIEST_SECS: i64 = -8_334_601_315_200;
pub const LATEST_SECS: i64 = 8_210_266_876_799;

/// Reads the system clock through std's `SystemTime::elapsed` on
/// `UNIX_EPOCH`: `Ok` with the whole seconds and the nanoseconds since the
/// epoch when the clock is at or after it, `Err` with how far before the
/// epoch it is otherwise. Claimed of it: the nanoseconds are below one
/// billion (`Duration::subsec_nanos`); the reading itself is the clock's.
#[verifier::external_body]
fn clock_since_epoch() -> (r: Result<(u64, u32), (u64, u32)>)
    ensures
        match r {
            Ok((_, n)) => n < 1_000_000_000,
            Err((_, n)) => n < 1_000_000_000,
        },
{
    match std::time::UNIX_EPOCH.elapsed() {
        Ok(d) => Ok((d.as_secs(), d.subsec_nanos())),
        Err(e) => Err((e.duration().as_secs(), e.duration().subsec_nanos())),
    }
}

/// The point in time of a clock reading (see [`clock_since_epoch`]): after
/// the epoch, the seconds and nanoseconds as they are; `s` seconds and `n`
/// nanoseconds before it, second `-s` when `n` is 0 and otherwise second
/// `-s - 1` with `1_000_000_000 - n` nanoseconds (as chrono turns a
/// `SystemTime` into a date). Seconds beyond chrono's range of dates are
/// held at its nearest end.
pub open spec fn clock_timestamp(reading: Result<(u64, u32), (u64, u32)>) -> Timestamp {
    let (secs, nanos): (int, int) = match reading {
        Ok((s, n)) => (s as int, n as int),
        Err((s, n)) => if n == 0 {
            (-s, 0)
        } else {
            (-s - 1, 1_000_000_000 - n)
        },
    };
    Timestamp {
        secs: (if secs > LATEST_SECS {
            LATEST_SECS as int
        } else if secs < EARLIEST_SECS {
            EARLIEST_SECS as int
        } else {
            secs
        }) as i64,
        nanos: nanos as u32,
    }
}

/// The point in time of a clock reading (see [`clock_timestamp`]).
pub fn timestamp_from_clock(reading: Result<(u64, u32), (u64, u32)>) -> (t: Timestamp)
    requires
        match reading {
            Ok((_, n)) => n < 1_000_000_000,
            Err((_, n)) => n < 1_000_000_000,
        },
    ensures
        t == clock_timestamp(reading),
        is_clock_time(t),
{
    match reading {
        Ok((s, n)) => {
            let secs: i64 = if s > LATEST_SECS as u64 {
                LATEST_SECS
            } else {
                s as i64
            };
            Timestamp { secs, nanos: n }
        },
        Err((s, n)) => {
            let secs: i64 = if s >= 8_334_601_315_200u64 {
                EARLIEST_SECS
            } else if n == 0 {
                -(s as i64)
            } else {
                -(s as i64) - 1
            };
            let nanos: u32 = if n == 0 {
                0
            } else {
                1_000_000_000 - n
            };
            Timestamp { secs, nanos }
        },
    }
}

/// Whether `t` is a time the clock can report: nanoseconds below two
/// billion and seconds in the range chrono can hold (what every reading of
/// [`now_utc`] satisfies).
pub open spec fn is_clock_time(t: Timestamp) -> bool {
    t.nanos < 2_000_000_000 && in_calendar_range(t.secs)
}

/// The current time, from the system clock (see [`timestamp_from_clock`]):
/// a time chrono can hold, whichever the clock reports.
pub(crate) fn now_utc() -> (t: Timestamp)
    ensures
        is_clock_time(t),
{
    timestamp_from_clock(clock_since_epoch())
}

/// The text chrono's `format("%Y%m%dT%H%M%SZ")` gives for the UTC time
/// `secs` seconds after the Unix epoch (e.g. `20240131T235959Z`).
pub uninterp spec fn compact_utc_stamp(secs: i64) -> Seq<char>;

/// Seconds from the epoch that chrono can hold as a date: from the start of
/// year -262143 to the end of year 262142 (chrono's `NaiveDate` range).
pub open spec fn in_calendar_range(secs: i64) -> bool {
    -8_334_601_315_200 <= secs <= 8_210_266_876_799
}

/// chrono's `DateTime::<Utc>::format` with the pattern `%Y%m%dT%H%M%SZ`,
/// applied to `secs` seconds after the epoch. Claimed of it: the text is
/// [`compact_utc_stamp`] of `secs`, a function of `secs` alone. The range
/// demanded keeps chrono's `from_timestamp` from failing.
#[verifier::external_body]
pub(crate) fn format_compact_utc(secs: i64) -> (r: String)
    requires
        in_calendar_range(secs),
    ensures
        r@ == compact_utc_stamp(secs),
{
    chrono::DateTime::from_timestamp(secs, 0).unwrap().format("%Y%m%dT%H%M%SZ").to_string()
}

} // verus!
