//! The installer pipeline's state machine: check the ledger, fetch, build,
//! record — strictly in that order, with any failure short-circuiting the
//! remaining stages. The caller performs each requested action (the ledger
//! query, the fetch, the build, the durable append) and feeds the outcome
//! back as an event; this module owns every transition.

use vstd::prelude::*;
use crate::errors::BuildError;
use crate::errors::FetchError;
use crate::errors::LedgerError;
use crate::ledger::is_installed;
use crate::records::RecordV;

verus! {

/// A stage failure, tagged with the stage it came from; the originating
/// error is surfaced, never reinterpreted.
#[derive(Debug, PartialEq, Eq)]
pub enum StageError {
    Fetch(FetchError),
    Build(BuildError),
    Ledger(LedgerError),
}

/// Where one install run stands.
#[derive(Debug, PartialEq, Eq)]
pub enum PipelineState {
    /// Nothing has happened; the ledger check is owed.
    Idle,
    /// The ledger shows the package absent; fetching is owed.
    Checked,
    /// The archive is staged and extracted; building is owed.
    Fetched,
    /// The payload is built and installed; the ledger record is owed.
    Built,
    /// Terminal: the ledger already showed the package installed, so no
    /// work was performed and no record is written.
    AlreadyInstalled,
    /// Terminal: installed, and durably recorded.
    Recorded,
    /// Terminal: a stage failed; later stages were skipped and the ledger
    /// holds no record of this attempt.
    Failed(StageError),
}

/// The outcome of the action the pipeline last asked for.
#[derive(Debug, PartialEq, Eq)]
pub enum PipelineEvent {
    CheckDone(Result<bool, LedgerError>),
    FetchDone(Result<(), FetchError>),
    BuildDone(Result<(), BuildError>),
    RecordDone(Result<(), LedgerError>),
}

/// What the caller must do next. `Finish(true)` also removes this run's
/// staging area; `Finish(false)` has none to remove.
#[derive(Debug, PartialEq, Eq, Clone, Copy, Structural)]
pub enum PipelineAction {
    QueryLedger,
    RunFetch,
    RunBuild,
    AppendRecord,
    Finish(bool),
}

/// The event each state is waiting for; terminal states wait for none.
pub open spec fn expected_event(s: PipelineState, e: PipelineEvent) -> bool {
    match (s, e) {
        (PipelineState::Idle, PipelineEvent::CheckDone(_)) => true,
        (PipelineState::Checked, PipelineEvent::FetchDone(_)) => true,
        (PipelineState::Fetched, PipelineEvent::BuildDone(_)) => true,
        (PipelineState::Built, PipelineEvent::RecordDone(_)) => true,
        _ => false,
    }
}

/// States in which this run's staging area may exist on disk: from the
/// moment a fetch is asked for until the run finishes.
pub open spec fn staging_live(s: PipelineState) -> bool {
    ||| s is Checked
    ||| s is Fetched
    ||| s is Built
}

/// A state from which no further event is consumed.
pub open spec fn is_terminal(s: PipelineState) -> bool {
    ||| s is AlreadyInstalled
    ||| s is Recorded
    ||| s is Failed
}

/// The whole transition table. Unexpected events leave the state alone and
/// finish, cleaning the staging area if one may exist.
pub open spec fn step_spec(s: PipelineState, e: PipelineEvent) -> (PipelineState, PipelineAction) {
    match (s, e) {
        (PipelineState::Idle, PipelineEvent::CheckDone(Ok(true))) => (
            PipelineState::AlreadyInstalled,
            PipelineAction::Finish(false),
        ),
        (PipelineState::Idle, PipelineEvent::CheckDone(Ok(false))) => (
            PipelineState::Checked,
            PipelineAction::RunFetch,
        ),
        (PipelineState::Idle, PipelineEvent::CheckDone(Err(le))) => (
            PipelineState::Failed(StageError::Ledger(le)),
            PipelineAction::Finish(false),
        ),
        (PipelineState::Checked, PipelineEvent::FetchDone(Ok(_))) => (
            PipelineState::Fetched,
            PipelineAction::RunBuild,
        ),
        (PipelineState::Checked, PipelineEvent::FetchDone(Err(fe))) => (
            PipelineState::Failed(StageError::Fetch(fe)),
            PipelineAction::Finish(true),
        ),
        (PipelineState::Fetched, PipelineEvent::BuildDone(Ok(_))) => (
            PipelineState::Built,
            PipelineAction::AppendRecord,
        ),
        (PipelineState::Fetched, PipelineEvent::BuildDone(Err(be))) => (
            PipelineState::Failed(StageError::Build(be)),
            PipelineAction::Finish(true),
        ),
        (PipelineState::Built, PipelineEvent::RecordDone(Ok(_))) => (
            PipelineState::Recorded,
            PipelineAction::Finish(true),
        ),
        (PipelineState::Built, PipelineEvent::RecordDone(Err(le))) => (
            PipelineState::Failed(StageError::Ledger(le)),
            PipelineAction::Finish(true),
        ),
        (s2, _) => {
            let cleanup = staging_live(s2);
            (s2, PipelineAction::Finish(cleanup))
        },
    }
}

/// Every install run begins by asking the ledger whether the package is
/// already installed.
pub fn start() -> (r: (PipelineState, PipelineAction))
    ensures
        r.0 == PipelineState::Idle,
        r.1 == PipelineAction::QueryLedger,
{
    (PipelineState::Idle, PipelineAction::QueryLedger)
}

/// Consumes one event and yields the next state and the action now owed.
pub fn step(s: PipelineState, e: PipelineEvent) -> (r: (PipelineState, PipelineAction))
    ensures
        r == step_spec(s, e),
{
    match (s, e) {
        (PipelineState::Idle, PipelineEvent::CheckDone(Ok(true))) => (
            PipelineState::AlreadyInstalled,
            PipelineAction::Finish(false),
        ),
        (PipelineState::Idle, PipelineEvent::CheckDone(Ok(false))) => (
            PipelineState::Checked,
            PipelineAction::RunFetch,
        ),
        (PipelineState::Idle, PipelineEvent::CheckDone(Err(le))) => (
            PipelineState::Failed(StageError::Ledger(le)),
            PipelineAction::Finish(false),
        ),
        (PipelineState::Checked, PipelineEvent::FetchDone(Ok(_))) => (
            PipelineState::Fetched,
            PipelineAction::RunBuild,
        ),
        (PipelineState::Checked, PipelineEvent::FetchDone(Err(fe))) => (
            PipelineState::Failed(StageError::Fetch(fe)),
            PipelineAction::Finish(true),
        ),
        (PipelineState::Fetched, PipelineEvent::BuildDone(Ok(_))) => (
            PipelineState::Built,
            PipelineAction::AppendRecord,
        ),
        (PipelineState::Fetched, PipelineEvent::BuildDone(Err(be))) => (
            PipelineState::Failed(StageError::Build(be)),
            PipelineAction::Finish(true),
        ),
        (PipelineState::Built, PipelineEvent::RecordDone(Ok(_))) => (
            PipelineState::Recorded,
            PipelineAction::Finish(true),
        ),
        (PipelineState::Built, PipelineEvent::RecordDone(Err(le))) => (
            PipelineState::Failed(StageError::Ledger(le)),
            PipelineAction::Finish(true),
        ),
        (s2, _) => {
            let cleanup = match &s2 {
                PipelineState::Checked => true,
                PipelineState::Fetched => true,
                PipelineState::Built => true,
                _ => false,
            };
            (s2, PipelineAction::Finish(cleanup))
        },
    }
}

/// The process exit code for a run: zero for success and for the
/// already-installed no-op; a distinct non-zero code per error category;
/// non-zero for a run that never reached a terminal state.
pub fn exit_code(s: &PipelineState) -> (c: i32)
    ensures
        (*s is AlreadyInstalled || *s is Recorded) <==> c == 0,
        *s matches PipelineState::Failed(StageError::Fetch(_)) ==> c == 3,
        *s matches PipelineState::Failed(StageError::Build(_)) ==> c == 4,
        *s matches PipelineState::Failed(StageError::Ledger(_)) ==> c == 5,
        !is_terminal(*s) ==> c == 1,
{
    match s {
        PipelineState::Failed(StageError::Fetch(_)) => 3,
        PipelineState::Failed(StageError::Build(_)) => 4,
        PipelineState::Failed(StageError::Ledger(_)) => 5,
        PipelineState::AlreadyInstalled => 0,
        PipelineState::Recorded => 0,
        _ => 1,
    }
}

/// Idempotence of install: the run's first event carries the ledger
/// check's result, `is_installed` of the ledger's records for the package.
/// When the package is already installed, the run ends at once in
/// `AlreadyInstalled` — no fetch, no build, no record append is ever asked
/// for, and no further event is consumed, so the ledger keeps exactly the
/// records it had.
pub proof fn lemma_install_idempotent(rs: Seq<RecordV>, id: Seq<u8>)
    requires
        is_installed(rs, id),
    ensures
        step_spec(PipelineState::Idle, PipelineEvent::CheckDone(Ok(is_installed(rs, id)))) == (
            PipelineState::AlreadyInstalled,
            PipelineAction::Finish(false),
        ),
        is_terminal(PipelineState::AlreadyInstalled),
        forall|e: PipelineEvent| !expected_event(PipelineState::AlreadyInstalled, e),
{
}

/// Staging cleanup: once a run may have created a staging area, every way
/// it can finish — the build failing, the fetch failing, the record append
/// failing, or full success — removes that staging area.
pub proof fn lemma_staging_cleanup(s: PipelineState, e: PipelineEvent)
    requires
        expected_event(s, e),
        staging_live(s),
    ensures
        step_spec(s, e).1 matches PipelineAction::Finish(cleanup) ==> cleanup,
        step_spec(s, e).0 is Failed ==> step_spec(s, e).1 == PipelineAction::Finish(true),
{
}

/// Strict stage order: work is only ever asked for by the state that owes
/// it — fetch only once the ledger showed the package absent, build only
/// once fetched, record only once built; and a failed stage never lets a
/// later action follow.
pub proof fn lemma_stage_order(s: PipelineState, e: PipelineEvent)
    ensures
        step_spec(s, e).1 == PipelineAction::RunFetch ==> s is Idle && e == PipelineEvent::CheckDone(
            Ok(false),
        ),
        step_spec(s, e).1 == PipelineAction::RunBuild ==> s is Checked && e matches PipelineEvent::FetchDone(
            Ok(_),
        ),
        step_spec(s, e).1 == PipelineAction::AppendRecord ==> s is Fetched
            && e matches PipelineEvent::BuildDone(Ok(_)),
        s is Failed ==> step_spec(s, e).1 matches PipelineAction::Finish(_),
{
}

} // verus!
