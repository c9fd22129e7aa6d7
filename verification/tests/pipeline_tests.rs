use devpkg::PackageIdentity;
use devpkg::errors::BuildError;
use devpkg::errors::FetchError;
use devpkg::errors::LedgerError;
use devpkg::ledger::Database;
use devpkg::pipeline::PipelineAction;
use devpkg::pipeline::PipelineEvent;
use devpkg::pipeline::PipelineState;
use devpkg::pipeline::StageError;
use devpkg::pipeline::exit_code;
use devpkg::pipeline::start;
use devpkg::pipeline::step;
use devpkg::records::PackageStatus;

fn ident(url: &str) -> PackageIdentity {
    PackageIdentity::new(url.as_bytes().to_vec()).unwrap()
}

#[test]
fn a_run_starts_with_the_ledger_query() {
    let (state, action) = start();
    assert_eq!(state, PipelineState::Idle);
    assert_eq!(action, PipelineAction::QueryLedger);
}

#[test]
fn already_installed_is_a_terminal_noop() {
    let (state, action) = step(PipelineState::Idle, PipelineEvent::CheckDone(Ok(true)));
    assert_eq!(state, PipelineState::AlreadyInstalled);
    assert_eq!(action, PipelineAction::Finish(false));
}

#[test]
fn absent_package_moves_to_fetch() {
    let (state, action) = step(PipelineState::Idle, PipelineEvent::CheckDone(Ok(false)));
    assert_eq!(state, PipelineState::Checked);
    assert_eq!(action, PipelineAction::RunFetch);
}

#[test]
fn check_error_fails_without_staging_cleanup() {
    let (state, action) = step(
        PipelineState::Idle,
        PipelineEvent::CheckDone(Err(LedgerError::IoFailure)),
    );
    assert_eq!(state, PipelineState::Failed(StageError::Ledger(LedgerError::IoFailure)));
    assert_eq!(action, PipelineAction::Finish(false));
}

#[test]
fn fetch_failure_cleans_staging() {
    let (state, action) = step(
        PipelineState::Checked,
        PipelineEvent::FetchDone(Err(FetchError::NotFound)),
    );
    assert_eq!(state, PipelineState::Failed(StageError::Fetch(FetchError::NotFound)));
    assert_eq!(action, PipelineAction::Finish(true));
}

#[test]
fn every_fetch_failure_mode_is_surfaced() {
    let modes = [
        FetchError::Unreachable,
        FetchError::NotFound,
        FetchError::CorruptArchive,
        FetchError::IoFailure,
    ];
    for err in modes {
        let (state, action) = step(PipelineState::Checked, PipelineEvent::FetchDone(Err(err)));
        assert_eq!(state, PipelineState::Failed(StageError::Fetch(err)));
        assert_eq!(action, PipelineAction::Finish(true));
    }
}

#[test]
fn build_failure_cleans_staging() {
    let err = BuildError::CompileFailed(2, b"undefined reference".to_vec());
    let (state, action) = step(PipelineState::Fetched, PipelineEvent::BuildDone(Err(err)));
    assert_eq!(
        state,
        PipelineState::Failed(StageError::Build(BuildError::CompileFailed(
            2,
            b"undefined reference".to_vec()
        )))
    );
    assert_eq!(action, PipelineAction::Finish(true));
}

#[test]
fn record_failure_still_cleans_staging() {
    let (state, action) = step(
        PipelineState::Built,
        PipelineEvent::RecordDone(Err(LedgerError::PermissionDenied)),
    );
    assert_eq!(state, PipelineState::Failed(StageError::Ledger(LedgerError::PermissionDenied)));
    assert_eq!(action, PipelineAction::Finish(true));
}

#[test]
fn success_path_requests_each_stage_once_in_order() {
    let (s1, a1) = step(PipelineState::Idle, PipelineEvent::CheckDone(Ok(false)));
    assert_eq!((&s1, a1), (&PipelineState::Checked, PipelineAction::RunFetch));
    let (s2, a2) = step(s1, PipelineEvent::FetchDone(Ok(())));
    assert_eq!((&s2, a2), (&PipelineState::Fetched, PipelineAction::RunBuild));
    let (s3, a3) = step(s2, PipelineEvent::BuildDone(Ok(())));
    assert_eq!((&s3, a3), (&PipelineState::Built, PipelineAction::AppendRecord));
    let (s4, a4) = step(s3, PipelineEvent::RecordDone(Ok(())));
    assert_eq!((&s4, a4), (&PipelineState::Recorded, PipelineAction::Finish(true)));
}

#[test]
fn exit_codes_are_distinct_per_category() {
    assert_eq!(exit_code(&PipelineState::Recorded), 0);
    assert_eq!(exit_code(&PipelineState::AlreadyInstalled), 0);
    assert_eq!(
        exit_code(&PipelineState::Failed(StageError::Fetch(FetchError::Unreachable))),
        3
    );
    assert_eq!(
        exit_code(&PipelineState::Failed(StageError::Build(BuildError::ConfigureFailed(
            1,
            Vec::new()
        )))),
        4
    );
    assert_eq!(
        exit_code(&PipelineState::Failed(StageError::Ledger(LedgerError::Corrupt))),
        5
    );
}

// A driver as the surrounding program would run it, with a fetcher stub and
// a build stub that always succeed, counting what the pipeline asks for.
fn drive_install(db: &mut Database, url: &str, now: u64) -> (PipelineState, u32, u32, u32) {
    let mut fetches = 0u32;
    let mut builds = 0u32;
    let mut appends = 0u32;
    let (mut state, mut action) = start();
    loop {
        let event = match action {
            PipelineAction::QueryLedger => PipelineEvent::CheckDone(Ok(db.find(&ident(url)))),
            PipelineAction::RunFetch => {
                fetches += 1;
                PipelineEvent::FetchDone(Ok(()))
            }
            PipelineAction::RunBuild => {
                builds += 1;
                PipelineEvent::BuildDone(Ok(()))
            }
            PipelineAction::AppendRecord => {
                appends += 1;
                db.update(ident(url), PackageStatus::Installed, now);
                PipelineEvent::RecordDone(Ok(()))
            }
            PipelineAction::Finish(_) => break,
        };
        let next = step(state, event);
        state = next.0;
        action = next.1;
    }
    (state, fetches, builds, appends)
}

#[test]
fn end_to_end_install_records_exactly_one_installed_record() {
    let url = "http://example.test/pkg-1.0.tar.gz";
    let mut db = Database::new();
    let (state, fetches, builds, appends) = drive_install(&mut db, url, 1000);
    assert_eq!(state, PipelineState::Recorded);
    assert_eq!((fetches, builds, appends), (1, 1, 1));
    assert!(db.find(&ident(url)));
    let records = db.list();
    assert_eq!(records.len(), 1);
    assert_eq!(records[0].identity.as_bytes(), &url.as_bytes().to_vec());
    assert_eq!(records[0].status, PackageStatus::Installed);
}

#[test]
fn reinstall_is_idempotent_no_fetch_no_build_no_record() {
    let url = "http://example.test/pkg-1.0.tar.gz";
    let mut db = Database::new();
    let _ = drive_install(&mut db, url, 1000);
    let (state, fetches, builds, appends) = drive_install(&mut db, url, 2000);
    assert_eq!(state, PipelineState::AlreadyInstalled);
    assert_eq!((fetches, builds, appends), (0, 0, 0));
    assert_eq!(db.list().len(), 1);
}
