//! Records of a copy run, one JSON object per line in a log file under the
//! target (the writing happens outside the library).

use vstd::prelude::*;
use crate::path::{join, join_spec};
use crate::text::{chars_of, push_all, string_of};
use crate::time::{Timestamp, compact_utc_stamp, format_compact_utc, in_calendar_range, now_utc};

verus! {

/// What happened to one file.
#[derive(Debug, Clone, Copy, PartialEq, Eq, Structural)]
pub enum CopyStatus {
    Copied,
    SkippedExisting,
    Renamed,
    Error,
}

/// The log record of one file.
#[derive(Debug, Clone)]
pub struct CopyLogEntry {
    pub timestamp: Timestamp,
    pub source_path: String,
    pub dest_path: String,
    pub size_bytes: u64,
    pub status: CopyStatus,
    pub error_message: Option<String>,
    pub duration_ms: u64,
}

/// The last record of a run.
#[derive(Debug, Clone, Copy, PartialEq, Eq, Structural)]
pub struct CopySummary {
    pub summary: bool,
    pub files_copied: usize,
    pub files_skipped: usize,
    pub files_renamed: usize,
    pub files_failed: usize,
    pub bytes_copied: u64,
    pub elapsed_ms: u64,
}

/// The folder of the copy logs: `<target>/.marshmallow/logs`.
pub open spec fn copy_log_dir_spec(target: Seq<char>) -> Seq<char> {
    join_spec(join_spec(target, ".marshmallow"@), "logs"@)
}

/// The name of the log of a run started at `secs`: `copy-<stamp>.jsonl`.
pub open spec fn copy_log_name_spec(secs: i64) -> Seq<char> {
    "copy-"@ + compact_utc_stamp(secs) + ".jsonl"@
}

/// The folder of the copy logs of a target.
pub fn copy_log_dir(target: &str) -> (r: String)
    ensures
        r@ == copy_log_dir_spec(target@),
{
    let dir = join(target, ".marshmallow");
    join(&dir, "logs")
}

/// The name of the log of a run started at `secs` seconds after the epoch.
pub fn copy_log_file_name(secs: i64) -> (r: String)
    requires
        in_calendar_range(secs),
    ensures
        r@ == copy_log_name_spec(secs),
{
    let stamp = format_compact_utc(secs);
    let mut r = string_of(&chars_of("copy-"));
    push_all(&mut r, &chars_of(&stamp));
    push_all(&mut r, &chars_of(".jsonl"));
    r
}

/// The log file of a run starting now: `<target>/.marshmallow/logs/copy-<stamp>.jsonl`,
/// the stamp being the current UTC time.
pub fn copy_log_path(target: &str) -> (r: String)
    ensures
        exists|secs: i64|
            in_calendar_range(secs) && r@ == join_spec(
                copy_log_dir_spec(target@),
                copy_log_name_spec(secs),
            ),
{
    let now = now_utc();
    let dir = copy_log_dir(target);
    let name = copy_log_file_name(now.secs);
    join(&dir, &name)
}

} // verus!
