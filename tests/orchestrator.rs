use crisper::orchestrator::{IngestAction, IngestEvent, IngestFailure, IngestPhase, IngestState};
use crisper::orchestrator::IngestEvent::{
    Cancelled, DirectoryUnreadable, ExtractionFailed, FilesListed, Persisted, StorageFailed, Summarized,
    SummaryFailed, UnitAnalyzed, UnitFailed, UnitsExtracted,
};

fn run(events: &[IngestEvent]) -> (IngestState, Vec<IngestAction>) {
    let (mut state, first) = IngestState::start();
    let mut actions = vec![first];
    for &e in events {
        let (next, action) = state.step(e);
        state = next;
        actions.push(action);
    }
    (state, actions)
}

#[test]
fn run_over_two_files() {
    let (state, actions) = run(&[
        FilesListed { count: 2 },
        UnitsExtracted { count: 2 },
        Summarized,
        UnitAnalyzed,
        UnitAnalyzed,
        Persisted,
        UnitsExtracted { count: 1 },
        SummaryFailed,
        UnitAnalyzed,
        Persisted,
    ]);
    assert_eq!(
        actions,
        vec![
            IngestAction::ListFiles,
            IngestAction::ExtractFile { file: 0 },
            IngestAction::SummarizeFile { file: 0 },
            IngestAction::AnalyzeUnit { file: 0, unit: 0 },
            IngestAction::AnalyzeUnit { file: 0, unit: 1 },
            IngestAction::PersistFile { file: 0 },
            IngestAction::ExtractFile { file: 1 },
            IngestAction::SummarizeFile { file: 1 },
            IngestAction::AnalyzeUnit { file: 1, unit: 0 },
            IngestAction::PersistFile { file: 1 },
            IngestAction::Finish { stored: 2, skipped: 0 },
        ]
    );
    assert_eq!(state.phase, IngestPhase::Done);
}

#[test]
fn failed_unit_does_not_block_the_file() {
    let (_, actions) = run(&[FilesListed { count: 1 }, UnitsExtracted { count: 2 }, Summarized, UnitFailed]);
    assert_eq!(actions.last(), Some(&IngestAction::AnalyzeUnit { file: 0, unit: 1 }));
    let (_, actions) = run(&[FilesListed { count: 1 }, UnitsExtracted { count: 1 }, Summarized, UnitFailed]);
    assert_eq!(actions.last(), Some(&IngestAction::PersistFile { file: 0 }));
}

#[test]
fn unreadable_or_empty_file_is_skipped() {
    let (_, actions) = run(&[FilesListed { count: 2 }, ExtractionFailed]);
    assert_eq!(actions.last(), Some(&IngestAction::ExtractFile { file: 1 }));
    let (state, actions) = run(&[FilesListed { count: 2 }, ExtractionFailed, UnitsExtracted { count: 0 }]);
    assert_eq!(actions.last(), Some(&IngestAction::Finish { stored: 0, skipped: 2 }));
    assert_eq!(state.phase, IngestPhase::Done);
}

#[test]
fn fatal_failures_abort() {
    let (_, actions) = run(&[DirectoryUnreadable]);
    assert_eq!(actions.last(), Some(&IngestAction::Abort { failure: IngestFailure::DirectoryUnreadable }));
    let (_, actions) = run(&[FilesListed { count: 0 }]);
    assert_eq!(actions.last(), Some(&IngestAction::Abort { failure: IngestFailure::NoPdfFiles }));
    let (state, actions) =
        run(&[FilesListed { count: 1 }, UnitsExtracted { count: 1 }, Summarized, UnitAnalyzed, StorageFailed]);
    assert_eq!(actions.last(), Some(&IngestAction::Abort { failure: IngestFailure::StorageFailed }));
    assert_eq!(state.phase, IngestPhase::Failed);
}

#[test]
fn cancellation_ends_before_the_next_unit() {
    let (state, actions) = run(&[
        FilesListed { count: 3 },
        UnitsExtracted { count: 1 },
        Summarized,
        UnitAnalyzed,
        Persisted,
        UnitsExtracted { count: 4 },
        Summarized,
        UnitAnalyzed,
        Cancelled,
    ]);
    assert_eq!(actions.last(), Some(&IngestAction::Finish { stored: 1, skipped: 0 }));
    assert_eq!(state.phase, IngestPhase::Done);
}

#[test]
fn events_out_of_place_change_nothing() {
    let (state, actions) = run(&[Persisted, UnitAnalyzed]);
    assert_eq!(actions.last(), Some(&IngestAction::ListFiles));
    assert_eq!(state.phase, IngestPhase::ScanningFiles);
}
