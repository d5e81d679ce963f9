//! The decisions of a copy run: which files to copy and where, and the
//! tally kept while the files are copied one by one (the file work, the
//! progress messages and the cancel flag live outside the library, which
//! hands each file's outcome back to [`CopyRun::record`]).

use vstd::prelude::*;
use crate::copy::log::{CopyLogEntry, CopyStatus, CopySummary};
use crate::copy::plan::{destination_path, destination_spec};
use crate::path::{join, join_spec};
use crate::project::{
    count_decision,
    Decision, ItemView, MediaItem, Project, Source, find_source, has_source, is_first_source,
    items_view, kept_bytes_spec,
};
use crate::scan::{source_basename, source_basename_spec};
use crate::time::now_utc;

verus! {

/// Progress of a copy run, as reported to the user.
#[derive(Debug, Clone)]
pub struct CopyProgress {
    pub files_done: usize,
    pub files_total: usize,
    pub bytes_done: u64,
    pub bytes_total: u64,
    pub current_file: Option<String>,
    pub current_file_bytes_done: u64,
    pub current_file_bytes_total: u64,
}

/// What a finished copy run did.
#[derive(Debug, Clone)]
pub struct CopyOutcome {
    pub files_copied: usize,
    pub files_skipped: usize,
    pub files_renamed: usize,
    pub files_failed: usize,
    pub bytes_copied: u64,
    pub log_path: String,
    pub cancelled: bool,
}

/// The copy of the kept items of a project.
pub struct CopyEngine;

/// One kept item to copy.
#[derive(Debug, Clone)]
pub struct CopyJob {
    /// Where the file is read from; `None` when no source has the item's id.
    pub source_path: Option<String>,
    /// Where the file goes, before any collision renaming (empty when the
    /// source is missing).
    pub dest_base: String,
    pub relative_path: String,
    pub size_bytes: u64,
}

/// The kept items of a project, in order, as jobs.
pub struct CopyPlan {
    pub jobs: Vec<CopyJob>,
    pub files_total: usize,
    pub bytes_total: u64,
}

/// How one file ended.
#[derive(Debug, Clone, PartialEq, Eq)]
pub enum FileOutcome {
    /// No source has the item's id: nothing was copied.
    MissingSource,
    /// Copied to the given path.
    Copied(String),
    /// Copied under a suffixed name, the given path.
    Renamed(String),
    /// A file of the same size was already at the given path.
    SkippedExisting(String),
    /// The run was cancelled while this file was being copied.
    Cancelled,
    /// The copy failed with the given message.
    Failed(String),
}

/// The kept items, in order.
pub open spec fn kept_items(items: Seq<ItemView>) -> Seq<ItemView>
    decreases items.len(),
{
    if items.len() == 0 {
        Seq::empty()
    } else if items.last().decision == Decision::Keep {
        kept_items(items.drop_last()).push(items.last())
    } else {
        kept_items(items.drop_last())
    }
}

/// Total size of a sequence of jobs.
pub open spec fn job_bytes(jobs: Seq<CopyJob>) -> nat
    decreases jobs.len(),
{
    if jobs.len() == 0 {
        0
    } else {
        job_bytes(jobs.drop_last()) + jobs.last().size_bytes as nat
    }
}

/// Whether `job` is the job of `item` in a project with these sources and
/// this target: the item's size and relative path; when a source has the
/// item's id, the file under the first such source and a destination
/// namespaced by that source's basename; otherwise no source path and an
/// empty destination.
pub open spec fn job_matches(
    job: CopyJob,
    sources: Seq<Source>,
    target: Seq<char>,
    item: ItemView,
) -> bool {
    &&& job.size_bytes == item.size_bytes
    &&& job.relative_path@ == item.relative_path
    &&& if has_source(sources, item.source_id) {
        exists|j: int|
            is_first_source(sources, j, item.source_id) && (job.source_path matches Some(p) && p@
                == join_spec(sources[j].path@, item.relative_path)) && job.dest_base@
                == destination_spec(target, source_basename_spec(sources[j].path@), item.relative_path)
    } else {
        job.source_path is None && job.dest_base@ == Seq::<char>::empty()
    }
}

/// A plan's totals are those of its jobs.
pub open spec fn plan_wf(plan: CopyPlan) -> bool {
    &&& plan.files_total == plan.jobs@.len()
    &&& plan.bytes_total == job_bytes(plan.jobs@)
}

/// One job is planned per item marked keep.
pub proof fn lemma_kept_items_count(items: Seq<MediaItem>)
    ensures
        kept_items(items_view(items)).len() == count_decision(items, Decision::Keep),
    decreases items.len(),
{
    if items.len() > 0 {
        lemma_kept_items_count(items.drop_last());
        assert(items_view(items).drop_last() =~= items_view(items.drop_last()));
        assert(items_view(items).last() == items.last()@);
    }
}

/// Law of the plan: a project's plan has as many files as items marked
/// keep.
pub proof fn lemma_plan_totals(plan: CopyPlan, items: Seq<MediaItem>)
    requires
        plan_wf(plan),
        plan.jobs@.len() == kept_items(items_view(items)).len(),
    ensures
        plan.files_total == count_decision(items, Decision::Keep),
{
    lemma_kept_items_count(items);
}

/// Law of a whole copy run: once every planned file of a run over a
/// project's plan is done and the run was not cancelled, the files copied,
/// skipped, renamed and failed add up to the number of items marked keep.
pub proof fn lemma_finished_run_covers_keepers(run: CopyRun, plan: CopyPlan, items: Seq<MediaItem>)
    requires
        run_wf(run, plan),
        plan.jobs@.len() == kept_items(items_view(items)).len(),
        run.files_done == run.files_total,
        !run.cancelled,
    ensures
        run.files_copied + run.files_skipped + run.files_renamed + run.files_failed
            == count_decision(items, Decision::Keep),
{
    lemma_kept_items_count(items);
}

/// The bytes of a prefix of the jobs are at most those of all of them,
/// and each job adds its size.
pub proof fn lemma_job_bytes_prefix(jobs: Seq<CopyJob>, i: int)
    requires
        0 <= i <= jobs.len(),
    ensures
        job_bytes(jobs.take(i)) <= job_bytes(jobs),
        i < jobs.len() ==> job_bytes(jobs.take(i + 1)) == job_bytes(jobs.take(i))
            + jobs[i].size_bytes,
    decreases jobs.len() - i,
{
    if i < jobs.len() {
        lemma_job_bytes_prefix(jobs, i + 1);
        assert(jobs.take(i + 1).drop_last() =~= jobs.take(i));
    } else {
        assert(jobs.take(i) =~= jobs);
    }
}

impl CopyEngine {
    /// The jobs of a copy run: one per kept item, in project order; items
    /// undecided or marked trash are not copied.
    pub fn plan(project: &Project) -> (p: CopyPlan)
        requires
            kept_bytes_spec(project.items@) <= u64::MAX,
        ensures
            plan_wf(p),
            p.jobs@.len() == kept_items(items_view(project.items@)).len(),
            forall|i: int|
                0 <= i < p.jobs@.len() ==> job_matches(
                    #[trigger] p.jobs@[i],
                    project.sources@,
                    project.target@,
                    kept_items(items_view(project.items@))[i],
                ),
            p.bytes_total == kept_bytes_spec(project.items@),
    {
        let items = &project.items;
        let sources = project.sources.as_slice();
        let mut jobs: Vec<CopyJob> = Vec::new();
        let mut total: u64 = 0;
        let mut i: usize = 0;
        while i < items.len()
            invariant
                items == project.items,
                sources@ == project.sources@,
                i <= items@.len(),
                kept_bytes_spec(items@) <= u64::MAX,
                jobs@.len() == kept_items(items_view(items@.take(i as int))).len(),
                forall|k: int|
                    0 <= k < jobs@.len() ==> job_matches(
                        #[trigger] jobs@[k],
                        project.sources@,
                        project.target@,
                        kept_items(items_view(items@.take(i as int)))[k],
                    ),
                total == job_bytes(jobs@),
                job_bytes(jobs@) == kept_bytes_spec(items@.take(i as int)),
            decreases items@.len() - i,
        {
            let ghost prev = kept_items(items_view(items@.take(i as int)));
            assert(items@.take(i + 1).drop_last() =~= items@.take(i as int));
            assert(items_view(items@.take(i + 1)).drop_last() =~= items_view(items@.take(i as int)));
            assert(items_view(items@.take(i + 1)).last() == items@[i as int]@);
            proof {
                crate::project::lemma_kept_bytes_prefix(items@, i + 1);
            }
            let item = &items[i];
            if item.decision == Decision::Keep {
                let job = match find_source(sources, item.source_id) {
                    Some(j) => {
                        let src = &sources[j];
                        let base = source_basename(&src.path);
                        CopyJob {
                            source_path: Some(join(&src.path, &item.relative_path)),
                            dest_base: destination_path(&project.target, &base, &item.relative_path),
                            relative_path: item.relative_path.clone(),
                            size_bytes: item.size_bytes,
                        }
                    },
                    None => CopyJob {
                        source_path: None,
                        dest_base: String::new(),
                        relative_path: item.relative_path.clone(),
                        size_bytes: item.size_bytes,
                    },
                };
                assert(job_matches(job, project.sources@, project.target@, item@));
                let ghost old_jobs = jobs@;
                jobs.push(job);
                assert(jobs@.drop_last() =~= old_jobs);
                total = total + item.size_bytes;
                assert forall|k: int| 0 <= k < jobs@.len() implies job_matches(
                    #[trigger] jobs@[k],
                    project.sources@,
                    project.target@,
                    kept_items(items_view(items@.take(i + 1)))[k],
                ) by {
                    if k < old_jobs.len() {
                        assert(jobs@[k] == old_jobs[k]);
                    }
                }
            }
            i = i + 1;
        }
        assert(items@.take(items@.len() as int) =~= items@);
        let n = jobs.len();
        CopyPlan { jobs, files_total: n, bytes_total: total }
    }
}

/// The tally of a copy run.
#[derive(Debug, Clone, Copy, PartialEq, Eq, Structural)]
pub struct CopyRun {
    pub files_done: usize,
    pub files_total: usize,
    pub bytes_done: u64,
    pub bytes_total: u64,
    pub files_copied: usize,
    pub files_skipped: usize,
    pub files_renamed: usize,
    pub files_failed: usize,
    pub cancelled: bool,
}

/// The tally of a run over `plan` is consistent: no more files done than
/// planned, no more bytes copied than those of the files done, and every
/// file done counted once (save the one a cancel interrupted).
pub open spec fn run_wf(run: CopyRun, plan: CopyPlan) -> bool {
    &&& plan_wf(plan)
    &&& run.files_total == plan.jobs@.len()
    &&& run.bytes_total == plan.bytes_total
    &&& run.files_done <= run.files_total
    &&& run.bytes_done <= job_bytes(plan.jobs@.take(run.files_done as int))
    &&& run.files_copied + run.files_skipped + run.files_renamed + run.files_failed
        <= run.files_done
    &&& !run.cancelled ==> run.files_copied + run.files_skipped + run.files_renamed
        + run.files_failed == run.files_done
}

/// Whether an outcome fits a job: "missing source" exactly when the job has
/// no source.
pub open spec fn outcome_fits(job: CopyJob, outcome: FileOutcome) -> bool {
    (outcome is MissingSource) <==> (job.source_path is None)
}

/// The log record of an outcome, if it gets one.
pub open spec fn logged_as(
    job: CopyJob,
    outcome: FileOutcome,
    duration_ms: u64,
    e: CopyLogEntry,
) -> bool {
    &&& e.source_path@ == job.source_path->Some_0@
    &&& e.size_bytes == job.size_bytes
    &&& e.duration_ms == duration_ms
    &&& match outcome {
        FileOutcome::Copied(d) => e.dest_path@ == d@ && e.status == CopyStatus::Copied
            && e.error_message is None,
        FileOutcome::Renamed(d) => e.dest_path@ == d@ && e.status == CopyStatus::Renamed
            && e.error_message is None,
        FileOutcome::SkippedExisting(d) => e.dest_path@ == d@ && e.status
            == CopyStatus::SkippedExisting && e.error_message is None,
        FileOutcome::Failed(m) => e.dest_path@ == job.dest_base@ && e.status == CopyStatus::Error
            && (e.error_message matches Some(x) && x@ == m@),
        _ => false,
    }
}

impl CopyRun {
    /// A run over `plan` that has done nothing yet.
    pub fn start(plan: &CopyPlan) -> (r: CopyRun)
        requires
            plan_wf(*plan),
        ensures
            run_wf(r, *plan),
            r.files_done == 0,
            r.bytes_done == 0,
            r.files_copied == 0,
            r.files_skipped == 0,
            r.files_renamed == 0,
            r.files_failed == 0,
            !r.cancelled,
    {
        assert(plan.jobs@.take(0) =~= Seq::<CopyJob>::empty());
        CopyRun {
            files_done: 0,
            files_total: plan.files_total,
            bytes_done: 0,
            bytes_total: plan.bytes_total,
            files_copied: 0,
            files_skipped: 0,
            files_renamed: 0,
            files_failed: 0,
            cancelled: false,
        }
    }

    /// Whether there is a file left to copy.
    pub fn has_next(&self) -> (r: bool)
        ensures
            r == (!self.cancelled && self.files_done < self.files_total),
    {
        !self.cancelled && self.files_done < self.files_total
    }

    /// The run was cancelled before the next file was started.
    pub fn cancel(&mut self, plan: &CopyPlan)
        requires
            run_wf(*old(self), *plan),
        ensures
            run_wf(*final(self), *plan),
            *final(self) == (CopyRun { cancelled: true, ..*old(self) }),
    {
        self.cancelled = true;
    }

    /// The progress reported when the next file is started.
    pub fn progress_for_next(&self, plan: &CopyPlan) -> (p: CopyProgress)
        requires
            run_wf(*self, *plan),
            self.files_done < self.files_total,
        ensures
            p.files_done == self.files_done,
            p.files_total == self.files_total,
            p.bytes_done == self.bytes_done,
            p.bytes_total == self.bytes_total,
            p.current_file matches Some(f) && f@ == plan.jobs@[self.files_done as int].relative_path@,
            p.current_file_bytes_done == 0,
            p.current_file_bytes_total == plan.jobs@[self.files_done as int].size_bytes,
    {
        let job = &plan.jobs[self.files_done];
        CopyProgress {
            files_done: self.files_done,
            files_total: self.files_total,
            bytes_done: self.bytes_done,
            bytes_total: self.bytes_total,
            current_file: Some(job.relative_path.clone()),
            current_file_bytes_done: 0,
            current_file_bytes_total: job.size_bytes,
        }
    }

    /// Takes in how the next file ended: counts it, and gives back its log
    /// record (none for a missing source or a cancel).
    pub fn record(&mut self, plan: &CopyPlan, outcome: FileOutcome, duration_ms: u64) -> (entry:
        Option<CopyLogEntry>)
        requires
            run_wf(*old(self), *plan),
            !old(self).cancelled,
            old(self).files_done < old(self).files_total,
            outcome_fits(plan.jobs@[old(self).files_done as int], outcome),
        ensures
            run_wf(*final(self), *plan),
            final(self).files_done == old(self).files_done + 1,
            ({
                let job = plan.jobs@[old(self).files_done as int];
                let o = *old(self);
                let n = *final(self);
                match outcome {
                    FileOutcome::MissingSource => n == (CopyRun {
                        files_done: n.files_done,
                        files_failed: (o.files_failed + 1) as usize,
                        ..o
                    }) && entry is None,
                    FileOutcome::Copied(_) => n == (CopyRun {
                        files_done: n.files_done,
                        files_copied: (o.files_copied + 1) as usize,
                        bytes_done: (o.bytes_done + job.size_bytes) as u64,
                        ..o
                    }),
                    FileOutcome::Renamed(_) => n == (CopyRun {
                        files_done: n.files_done,
                        files_renamed: (o.files_renamed + 1) as usize,
                        bytes_done: (o.bytes_done + job.size_bytes) as u64,
                        ..o
                    }),
                    FileOutcome::SkippedExisting(_) => n == (CopyRun {
                        files_done: n.files_done,
                        files_skipped: (o.files_skipped + 1) as usize,
                        ..o
                    }),
                    FileOutcome::Cancelled => n == (CopyRun {
                        files_done: n.files_done,
                        cancelled: true,
                        ..o
                    }) && entry is None,
                    FileOutcome::Failed(_) => n == (CopyRun {
                        files_done: n.files_done,
                        files_failed: (o.files_failed + 1) as usize,
                        ..o
                    }),
                }
            }),
            match entry {
                Some(e) => logged_as(plan.jobs@[old(self).files_done as int], outcome, duration_ms, e),
                None => outcome is MissingSource || outcome is Cancelled,
            },
    {
        let ghost jobs = plan.jobs@;
        let idx = self.files_done;
        proof {
            lemma_job_bytes_prefix(jobs, idx as int);
            lemma_job_bytes_prefix(jobs, idx as int + 1);
        }
        let job = &plan.jobs[idx];
        let entry = match outcome {
            FileOutcome::MissingSource => {
                self.files_failed = self.files_failed + 1;
                None
            },
            FileOutcome::Cancelled => {
                self.cancelled = true;
                None
            },
            FileOutcome::Copied(dest) => {
                self.files_copied = self.files_copied + 1;
                self.bytes_done = self.bytes_done + job.size_bytes;
                Some(log_entry(job, dest, CopyStatus::Copied, None, duration_ms))
            },
            FileOutcome::Renamed(dest) => {
                self.files_renamed = self.files_renamed + 1;
                self.bytes_done = self.bytes_done + job.size_bytes;
                Some(log_entry(job, dest, CopyStatus::Renamed, None, duration_ms))
            },
            FileOutcome::SkippedExisting(dest) => {
                self.files_skipped = self.files_skipped + 1;
                Some(log_entry(job, dest, CopyStatus::SkippedExisting, None, duration_ms))
            },
            FileOutcome::Failed(msg) => {
                self.files_failed = self.files_failed + 1;
                Some(log_entry(job, job.dest_base.clone(), CopyStatus::Error, Some(msg), duration_ms))
            },
        };
        self.files_done = idx + 1;
        entry
    }

    /// The progress reported once the run is over.
    pub fn final_progress(&self) -> (p: CopyProgress)
        ensures
            p.files_done == self.files_done,
            p.files_total == self.files_total,
            p.bytes_done == self.bytes_done,
            p.bytes_total == self.bytes_total,
            p.current_file is None,
            p.current_file_bytes_done == 0,
            p.current_file_bytes_total == 0,
    {
        CopyProgress {
            files_done: self.files_done,
            files_total: self.files_total,
            bytes_done: self.bytes_done,
            bytes_total: self.bytes_total,
            current_file: None,
            current_file_bytes_done: 0,
            current_file_bytes_total: 0,
        }
    }

    /// The summary record that closes the log.
    pub fn summary(&self, elapsed_ms: u64) -> (s: CopySummary)
        ensures
            s == (CopySummary {
                summary: true,
                files_copied: self.files_copied,
                files_skipped: self.files_skipped,
                files_renamed: self.files_renamed,
                files_failed: self.files_failed,
                bytes_copied: self.bytes_done,
                elapsed_ms,
            }),
    {
        CopySummary {
            summary: true,
            files_copied: self.files_copied,
            files_skipped: self.files_skipped,
            files_renamed: self.files_renamed,
            files_failed: self.files_failed,
            bytes_copied: self.bytes_done,
            elapsed_ms,
        }
    }

    /// What the run did, with the path of its log.
    pub fn outcome(&self, log_path: String) -> (o: CopyOutcome)
        ensures
            o.files_copied == self.files_copied,
            o.files_skipped == self.files_skipped,
            o.files_renamed == self.files_renamed,
            o.files_failed == self.files_failed,
            o.bytes_copied == self.bytes_done,
            o.log_path == log_path,
            o.cancelled == self.cancelled,
    {
        CopyOutcome {
            files_copied: self.files_copied,
            files_skipped: self.files_skipped,
            files_renamed: self.files_renamed,
            files_failed: self.files_failed,
            bytes_copied: self.bytes_done,
            log_path,
            cancelled: self.cancelled,
        }
    }
}

impl CopyProgress {
    /// The progress while the current file is being copied, `copied` bytes
    /// into it.
    pub fn advanced(&self, copied: u64) -> (p: CopyProgress)
        requires
            self.bytes_done + copied <= u64::MAX,
        ensures
            p.files_done == self.files_done,
            p.files_total == self.files_total,
            p.bytes_done == self.bytes_done + copied,
            p.bytes_total == self.bytes_total,
            p.current_file == self.current_file,
            p.current_file_bytes_done == copied,
            p.current_file_bytes_total == self.current_file_bytes_total,
    {
        CopyProgress {
            files_done: self.files_done,
            files_total: self.files_total,
            bytes_done: self.bytes_done + copied,
            bytes_total: self.bytes_total,
            current_file: match &self.current_file {
                Some(f) => Some(f.clone()),
                None => None,
            },
            current_file_bytes_done: copied,
            current_file_bytes_total: self.current_file_bytes_total,
        }
    }
}

fn log_entry(
    job: &CopyJob,
    dest: String,
    status: CopyStatus,
    error_message: Option<String>,
    duration_ms: u64,
) -> (e: CopyLogEntry)
    requires
        job.source_path is Some,
    ensures
        e.source_path@ == job.source_path->Some_0@,
        e.dest_path == dest,
        e.size_bytes == job.size_bytes,
        e.status == status,
        e.error_message == error_message,
        e.duration_ms == duration_ms,
{
    let source_path = match &job.source_path {
        Some(p) => p.clone(),
        None => String::new(),
    };
    CopyLogEntry {
        timestamp: now_utc(),
        source_path,
        dest_path: dest,
        size_bytes: job.size_bytes,
        status,
        error_message,
        duration_ms,
    }
}

/// Law of a copy run: at any point, the files copied, skipped, renamed and
/// failed together are at most the files done, which are at most the files
/// planned, and the bytes copied are at most the planned total.
pub proof fn lemma_run_bounds(run: CopyRun, plan: CopyPlan)
    requires
        run_wf(run, plan),
    ensures
        run.files_copied + run.files_skipped + run.files_renamed + run.files_failed
            <= run.files_done <= run.files_total,
        run.bytes_done <= run.bytes_total,
{
    lemma_job_bytes_prefix(plan.jobs@, run.files_done as int);
}

} // verus!
