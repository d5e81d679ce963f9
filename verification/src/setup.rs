//! The decisions of the setup screen: what its main button says and does,
//! and which hint it shows.

use vstd::prelude::*;

verus! {

/// The label of the main button.
#[derive(Debug, Clone, Copy, PartialEq, Eq, Structural)]
pub enum PrimaryLabel {
    StartReview,
    ResumeReview,
}

/// The hint under the main button.
#[derive(Debug, Clone, Copy, PartialEq, Eq, Structural)]
pub enum SetupHint {
    /// A review is already in progress in this session.
    InProgress,
    /// A project file exists at the target; resuming loads its decisions.
    ExistingProject,
    /// No target chosen yet.
    NeedSourcesAndTarget,
    /// A target but no source.
    NeedSource,
    /// Ready to start.
    Ready,
}

/// What the setup screen shows.
#[derive(Debug, Clone, Copy, PartialEq, Eq, Structural)]
pub struct SetupView {
    pub label: PrimaryLabel,
    pub sensitive: bool,
    pub hint: SetupHint,
}

/// What the setup screen shows, given whether a review is active, a target
/// is chosen, a project file exists at the target, and sources are listed.
pub fn setup_view(has_active_project: bool, has_target: bool, resumable: bool, has_sources: bool) -> (v:
    SetupView)
    ensures
        v == if has_active_project {
            SetupView { label: PrimaryLabel::ResumeReview, sensitive: true, hint: SetupHint::InProgress }
        } else if has_target && resumable {
            SetupView {
                label: PrimaryLabel::ResumeReview,
                sensitive: true,
                hint: SetupHint::ExistingProject,
            }
        } else {
            SetupView {
                label: PrimaryLabel::StartReview,
                sensitive: has_sources && has_target,
                hint: if !has_target {
                    SetupHint::NeedSourcesAndTarget
                } else if !has_sources {
                    SetupHint::NeedSource
                } else {
                    SetupHint::Ready
                },
            }
        },
{
    if has_active_project {
        return SetupView {
            label: PrimaryLabel::ResumeReview,
            sensitive: true,
            hint: SetupHint::InProgress,
        };
    }
    if has_target && resumable {
        return SetupView {
            label: PrimaryLabel::ResumeReview,
            sensitive: true,
            hint: SetupHint::ExistingProject,
        };
    }
    let hint = if !has_target {
        SetupHint::NeedSourcesAndTarget
    } else if !has_sources {
        SetupHint::NeedSource
    } else {
        SetupHint::Ready
    };
    SetupView { label: PrimaryLabel::StartReview, sensitive: has_sources && has_target, hint }
}

/// What the main button does.
#[derive(Debug, Clone, Copy, PartialEq, Eq, Structural)]
pub enum PrimaryStep {
    /// Go back to the review in progress.
    ResumeActive,
    /// No target: nothing to do.
    NoTarget,
    /// Load the project file found at the target.
    LoadExisting,
    /// No project file and no source: nothing to do.
    NoSources,
    /// Scan the sources into a new project and save it at the target.
    CreateNew,
}

/// What the main button does, given whether a review is active, a target is
/// chosen, a project file exists there, and how many sources are listed.
pub fn primary_step(has_active_project: bool, has_target: bool, project_file_exists: bool, source_count: usize) -> (r:
    PrimaryStep)
    ensures
        r == if has_active_project {
            PrimaryStep::ResumeActive
        } else if !has_target {
            PrimaryStep::NoTarget
        } else if project_file_exists {
            PrimaryStep::LoadExisting
        } else if source_count == 0 {
            PrimaryStep::NoSources
        } else {
            PrimaryStep::CreateNew
        },
{
    if has_active_project {
        PrimaryStep::ResumeActive
    } else if !has_target {
        PrimaryStep::NoTarget
    } else if project_file_exists {
        PrimaryStep::LoadExisting
    } else if source_count == 0 {
        PrimaryStep::NoSources
    } else {
        PrimaryStep::CreateNew
    }
}

} // verus!
