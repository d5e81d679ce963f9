//! Copying the kept items into the target: where each file goes, what to
//! do when something is already there, the log records, and the tally of a
//! copy run.

pub mod plan;
pub mod log;
pub mod engine;

pub use engine::{CopyEngine, CopyJob, CopyOutcome, CopyPlan, CopyProgress, CopyRun, FileOutcome};
