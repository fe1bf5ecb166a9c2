//! The decisions of an ingestion run, as a state machine: the caller performs
//! each action (list the directory, extract a file, call the model, write to
//! the store) and reports what happened as an event.

use vstd::prelude::*;

verus! {

/// Where a run stands.
#[derive(Debug, Clone, Copy, PartialEq, Eq, Structural)]
pub enum IngestPhase {
    /// Waiting for the directory listing.
    ScanningFiles,
    /// Waiting for the units of a file.
    Extracting { file: usize },
    /// Waiting for the summary of a file as a whole.
    Summarizing { file: usize },
    /// Waiting for the analysis of one unit of a file.
    Analyzing { file: usize, unit: usize },
    /// Waiting for the writes of a file.
    Persisting { file: usize },
    /// The run ended; files that were stored are kept.
    Done,
    /// The run stopped on a fatal error.
    Failed,
}

/// Why a run stopped.
#[derive(Debug, Clone, Copy, PartialEq, Eq, Structural)]
pub enum IngestFailure {
    DirectoryUnreadable,
    NoPdfFiles,
    StorageFailed,
}

/// A run: its phase, how many files it found, how many units the current
/// file has, how many files it stored, how many it skipped, and the failure
/// that stopped it, if one did.
#[derive(Debug, Clone, Copy)]
pub struct IngestState {
    pub phase: IngestPhase,
    pub files: usize,
    pub units: usize,
    pub stored: usize,
    pub skipped: usize,
    pub failure: Option<IngestFailure>,
}

/// What the caller reports.
#[derive(Debug, Clone, Copy, PartialEq, Eq, Structural)]
pub enum IngestEvent {
    FilesListed { count: usize },
    DirectoryUnreadable,
    UnitsExtracted { count: usize },
    ExtractionFailed,
    Summarized,
    SummaryFailed,
    UnitAnalyzed,
    UnitFailed,
    Persisted,
    StorageFailed,
    Cancelled,
}

/// What the caller is to do next.
#[derive(Debug, Clone, Copy, PartialEq, Eq, Structural)]
pub enum IngestAction {
    ListFiles,
    ExtractFile { file: usize },
    SummarizeFile { file: usize },
    AnalyzeUnit { file: usize, unit: usize },
    PersistFile { file: usize },
    Finish { stored: usize, skipped: usize },
    Abort { failure: IngestFailure },
}

/// The indices of a run lie within what it found, and every file before the
/// current one was stored or skipped.
pub open spec fn state_wf(s: IngestState) -> bool {
    &&& s.stored + s.skipped <= s.files
    &&& match s.phase {
        IngestPhase::ScanningFiles => s.stored == 0 && s.skipped == 0 && s.failure is None,
        IngestPhase::Extracting { file } => file < s.files && s.stored + s.skipped == file
            && s.failure is None,
        IngestPhase::Summarizing { file } => file < s.files && s.stored + s.skipped == file
            && s.units > 0 && s.failure is None,
        IngestPhase::Analyzing { file, unit } => file < s.files && s.stored + s.skipped == file
            && unit < s.units && s.failure is None,
        IngestPhase::Persisting { file } => file < s.files && s.stored + s.skipped == file
            && s.failure is None,
        IngestPhase::Done => s.failure is None,
        IngestPhase::Failed => s.failure is Some,
    }
}

/// The phase that follows file `file`: the next file, or the end of the run.
pub open spec fn after_file(file: nat, files: nat) -> IngestPhase {
    if file + 1 < files {
        IngestPhase::Extracting { file: (file + 1) as usize }
    } else {
        IngestPhase::Done
    }
}

/// The action a state waits on.
pub open spec fn action_of(s: IngestState) -> IngestAction {
    match s.phase {
        IngestPhase::ScanningFiles => IngestAction::ListFiles,
        IngestPhase::Extracting { file } => IngestAction::ExtractFile { file },
        IngestPhase::Summarizing { file } => IngestAction::SummarizeFile { file },
        IngestPhase::Analyzing { file, unit } => IngestAction::AnalyzeUnit { file, unit },
        IngestPhase::Persisting { file } => IngestAction::PersistFile { file },
        IngestPhase::Done => IngestAction::Finish { stored: s.stored, skipped: s.skipped },
        IngestPhase::Failed => match s.failure {
            Some(f) => IngestAction::Abort { failure: f },
            None => IngestAction::Abort { failure: IngestFailure::StorageFailed },
        },
    }
}

/// The state after an event. A directory that cannot be read, a directory
/// without PDF files, and a failed write stop the run. A file whose text
/// cannot be extracted, or that has no units, is skipped. A failed summary or
/// unit analysis does not stop anything: the run goes on with the next step.
/// A cancellation ends the run before the next unit. An event that does not
/// fit the phase changes nothing.
pub open spec fn next_state(s: IngestState, e: IngestEvent) -> IngestState {
    match (s.phase, e) {
        (IngestPhase::ScanningFiles, IngestEvent::FilesListed { count }) => if count == 0 {
            IngestState {
                phase: IngestPhase::Failed,
                failure: Some(IngestFailure::NoPdfFiles),
                ..s
            }
        } else {
            IngestState { phase: IngestPhase::Extracting { file: 0 }, files: count, ..s }
        },
        (IngestPhase::ScanningFiles, IngestEvent::DirectoryUnreadable) => IngestState {
            phase: IngestPhase::Failed,
            failure: Some(IngestFailure::DirectoryUnreadable),
            ..s
        },
        (IngestPhase::Extracting { file }, IngestEvent::UnitsExtracted { count }) => if count
            == 0 {
            IngestState {
                phase: after_file(file as nat, s.files as nat),
                skipped: (s.skipped + 1) as usize,
                ..s
            }
        } else {
            IngestState { phase: IngestPhase::Summarizing { file }, units: count, ..s }
        },
        (IngestPhase::Extracting { file }, IngestEvent::ExtractionFailed) => IngestState {
            phase: after_file(file as nat, s.files as nat),
            skipped: (s.skipped + 1) as usize,
            ..s
        },
        (IngestPhase::Summarizing { file }, IngestEvent::Summarized)
        | (IngestPhase::Summarizing { file }, IngestEvent::SummaryFailed) => IngestState {
            phase: IngestPhase::Analyzing { file, unit: 0 },
            ..s
        },
        (IngestPhase::Analyzing { file, unit }, IngestEvent::UnitAnalyzed)
        | (IngestPhase::Analyzing { file, unit }, IngestEvent::UnitFailed) => if unit + 1 < s.units {
            IngestState { phase: IngestPhase::Analyzing { file, unit: (unit + 1) as usize }, ..s }
        } else {
            IngestState { phase: IngestPhase::Persisting { file }, ..s }
        },
        (IngestPhase::Persisting { file }, IngestEvent::Persisted) => IngestState {
            phase: after_file(file as nat, s.files as nat),
            stored: (s.stored + 1) as usize,
            ..s
        },
        (IngestPhase::Persisting { file }, IngestEvent::StorageFailed) => IngestState {
            phase: IngestPhase::Failed,
            failure: Some(IngestFailure::StorageFailed),
            ..s
        },
        (IngestPhase::Extracting { .. }, IngestEvent::Cancelled)
        | (IngestPhase::Summarizing { .. }, IngestEvent::Cancelled)
        | (IngestPhase::Analyzing { .. }, IngestEvent::Cancelled) => IngestState {
            phase: IngestPhase::Done,
            ..s
        },
        _ => s,
    }
}

/// A failed model call never changes the course of a run: a failed summary
/// or unit analysis leads to the same state as a successful one.
pub proof fn lemma_model_failures_isolated(s: IngestState)
    ensures
        next_state(s, IngestEvent::SummaryFailed) == next_state(s, IngestEvent::Summarized),
        next_state(s, IngestEvent::UnitFailed) == next_state(s, IngestEvent::UnitAnalyzed),
{
}

/// Only an unreadable directory, a directory without PDF files, and a failed
/// write stop a run; a file that cannot be read is skipped instead.
pub proof fn lemma_fatal_events(s: IngestState, e: IngestEvent)
    requires
        s.phase != IngestPhase::Failed,
        next_state(s, e).phase == IngestPhase::Failed,
    ensures
        e == IngestEvent::DirectoryUnreadable || e == (IngestEvent::FilesListed { count: 0 })
            || e == IngestEvent::StorageFailed,
{
}

impl IngestState {
    /// A run that has not listed its directory yet.
    pub fn start() -> (r: (IngestState, IngestAction))
        ensures
            state_wf(r.0),
            r.0.phase == IngestPhase::ScanningFiles,
            r.1 == IngestAction::ListFiles,
    {
        let s = IngestState {
            phase: IngestPhase::ScanningFiles,
            files: 0,
            units: 0,
            stored: 0,
            skipped: 0,
            failure: None,
        };
        (s, IngestAction::ListFiles)
    }

    /// The action this state waits on.
    pub fn action(&self) -> (r: IngestAction)
        ensures
            r == action_of(*self),
    {
        match self.phase {
            IngestPhase::ScanningFiles => IngestAction::ListFiles,
            IngestPhase::Extracting { file } => IngestAction::ExtractFile { file },
            IngestPhase::Summarizing { file } => IngestAction::SummarizeFile { file },
            IngestPhase::Analyzing { file, unit } => IngestAction::AnalyzeUnit { file, unit },
            IngestPhase::Persisting { file } => IngestAction::PersistFile { file },
            IngestPhase::Done => IngestAction::Finish { stored: self.stored, skipped: self.skipped },
            IngestPhase::Failed => match self.failure {
                Some(f) => IngestAction::Abort { failure: f },
                None => IngestAction::Abort { failure: IngestFailure::StorageFailed },
            },
        }
    }

    fn after_file(file: usize, files: usize) -> (r: IngestPhase)
        requires
            file < files,
        ensures
            r == after_file(file as nat, files as nat),
    {
        if file + 1 < files {
            IngestPhase::Extracting { file: file + 1 }
        } else {
            IngestPhase::Done
        }
    }

    /// The state after an event, and the action it waits on; see `next_state`.
    pub fn step(&self, e: IngestEvent) -> (r: (IngestState, IngestAction))
        requires
            state_wf(*self),
        ensures
            r.0 == next_state(*self, e),
            r.1 == action_of(r.0),
            state_wf(r.0),
    {
        let s = *self;
        let n = match (s.phase, e) {
            (IngestPhase::ScanningFiles, IngestEvent::FilesListed { count }) => if count == 0 {
                IngestState {
                    phase: IngestPhase::Failed,
                    failure: Some(IngestFailure::NoPdfFiles),
                    ..s
                }
            } else {
                IngestState { phase: IngestPhase::Extracting { file: 0 }, files: count, ..s }
            },
            (IngestPhase::ScanningFiles, IngestEvent::DirectoryUnreadable) => IngestState {
                phase: IngestPhase::Failed,
                failure: Some(IngestFailure::DirectoryUnreadable),
                ..s
            },
            (IngestPhase::Extracting { file }, IngestEvent::UnitsExtracted { count }) => if count
                == 0 {
                IngestState {
                    phase: Self::after_file(file, s.files),
                    skipped: s.skipped + 1,
                    ..s
                }
            } else {
                IngestState { phase: IngestPhase::Summarizing { file }, units: count, ..s }
            },
            (IngestPhase::Extracting { file }, IngestEvent::ExtractionFailed) => IngestState {
                phase: Self::after_file(file, s.files),
                skipped: s.skipped + 1,
                ..s
            },
            (IngestPhase::Summarizing { file }, IngestEvent::Summarized)
            | (IngestPhase::Summarizing { file }, IngestEvent::SummaryFailed) => IngestState {
                phase: IngestPhase::Analyzing { file, unit: 0 },
                ..s
            },
            (IngestPhase::Analyzing { file, unit }, IngestEvent::UnitAnalyzed)
            | (IngestPhase::Analyzing { file, unit }, IngestEvent::UnitFailed) => if unit + 1
                < s.units {
                IngestState { phase: IngestPhase::Analyzing { file, unit: unit + 1 }, ..s }
            } else {
                IngestState { phase: IngestPhase::Persisting { file }, ..s }
            },
            (IngestPhase::Persisting { file }, IngestEvent::Persisted) => IngestState {
                phase: Self::after_file(file, s.files),
                stored: s.stored + 1,
                ..s
            },
            (IngestPhase::Persisting { file }, IngestEvent::StorageFailed) => IngestState {
                phase: IngestPhase::Failed,
                failure: Some(IngestFailure::StorageFailed),
                ..s
            },
            (IngestPhase::Extracting { .. }, IngestEvent::Cancelled)
            | (IngestPhase::Summarizing { .. }, IngestEvent::Cancelled)
            | (IngestPhase::Analyzing { .. }, IngestEvent::Cancelled) => IngestState {
                phase: IngestPhase::Done,
                ..s
            },
            _ => s,
        };
        (n, n.action())
    }
}

} // verus!
