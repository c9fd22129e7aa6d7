//! The build executor's sequencing: configure, then compile, then stage the
//! install payload. Each sub-step is run by the caller as an external
//! toolchain process; this module decides which step comes next and turns
//! the first failing step's exit status and output into the build's error —
//! a failed step never lets a later step run.

use vstd::prelude::*;
use crate::errors::BuildError;

verus! {

/// Per-invocation build configuration; never persisted.
#[derive(Debug, PartialEq, Eq)]
pub struct BuildSpec {
    pub configure_opts: Option<String>,
    pub make_opts: Option<String>,
    pub install_target: Option<String>,
}

/// The three toolchain sub-steps, in their only admissible order.
#[derive(Debug, PartialEq, Eq, Clone, Copy, Structural)]
pub enum BuildStepKind {
    Configure,
    Compile,
    Stage,
}

/// What one toolchain sub-step reported: its exit status and captured
/// diagnostic output.
#[derive(Debug, PartialEq, Eq)]
pub struct StepOutcome {
    pub exit_code: i32,
    pub output: Vec<u8>,
}

/// Where a build stands: the next needed sub-step, success, or the first
/// failure.
#[derive(Debug, PartialEq, Eq)]
pub enum BuildPhase {
    NeedConfigure,
    NeedCompile,
    NeedStage,
    Staged,
    Aborted(BuildError),
}

/// The sub-step a phase asks for; terminal phases ask for none.
pub open spec fn build_action_spec(p: BuildPhase) -> Option<BuildStepKind> {
    match p {
        BuildPhase::NeedConfigure => Some(BuildStepKind::Configure),
        BuildPhase::NeedCompile => Some(BuildStepKind::Compile),
        BuildPhase::NeedStage => Some(BuildStepKind::Stage),
        BuildPhase::Staged => None,
        BuildPhase::Aborted(_) => None,
    }
}

/// How a phase advances on a sub-step's outcome: exit status zero moves to
/// the next step, anything else aborts with that step's error; terminal
/// phases never move.
pub open spec fn advance_spec(p: BuildPhase, o: StepOutcome) -> BuildPhase {
    match p {
        BuildPhase::NeedConfigure => if o.exit_code == 0 {
            BuildPhase::NeedCompile
        } else {
            BuildPhase::Aborted(BuildError::ConfigureFailed(o.exit_code, o.output))
        },
        BuildPhase::NeedCompile => if o.exit_code == 0 {
            BuildPhase::NeedStage
        } else {
            BuildPhase::Aborted(BuildError::CompileFailed(o.exit_code, o.output))
        },
        BuildPhase::NeedStage => if o.exit_code == 0 {
            BuildPhase::Staged
        } else {
            BuildPhase::Aborted(BuildError::InstallFailed(o.exit_code, o.output))
        },
        BuildPhase::Staged => BuildPhase::Staged,
        BuildPhase::Aborted(e) => BuildPhase::Aborted(e),
    }
}

/// The sub-step to run next, if any.
pub fn build_action(p: &BuildPhase) -> (r: Option<BuildStepKind>)
    ensures
        r == build_action_spec(*p),
{
    match p {
        BuildPhase::NeedConfigure => Some(BuildStepKind::Configure),
        BuildPhase::NeedCompile => Some(BuildStepKind::Compile),
        BuildPhase::NeedStage => Some(BuildStepKind::Stage),
        BuildPhase::Staged => None,
        BuildPhase::Aborted(_) => None,
    }
}

/// Consumes one sub-step's outcome.
pub fn advance(p: BuildPhase, o: StepOutcome) -> (r: BuildPhase)
    ensures
        r == advance_spec(p, o),
{
    match p {
        BuildPhase::NeedConfigure => {
            if o.exit_code == 0 {
                BuildPhase::NeedCompile
            } else {
                BuildPhase::Aborted(BuildError::ConfigureFailed(o.exit_code, o.output))
            }
        },
        BuildPhase::NeedCompile => {
            if o.exit_code == 0 {
                BuildPhase::NeedStage
            } else {
                BuildPhase::Aborted(BuildError::CompileFailed(o.exit_code, o.output))
            }
        },
        BuildPhase::NeedStage => {
            if o.exit_code == 0 {
                BuildPhase::Staged
            } else {
                BuildPhase::Aborted(BuildError::InstallFailed(o.exit_code, o.output))
            }
        },
        BuildPhase::Staged => BuildPhase::Staged,
        BuildPhase::Aborted(e) => BuildPhase::Aborted(e),
    }
}

/// The staging/install step's prefix: the configured target, or the
/// standard prefix when none was given.
pub fn effective_install_target(spec: &BuildSpec) -> (t: String)
    ensures
        spec.install_target matches Some(given) ==> t@ == given@,
        spec.install_target is None ==> t@ == "/usr/local"@,
{
    match &spec.install_target {
        Some(given) => given.clone(),
        None => "/usr/local".to_owned(),
    }
}

/// No partial chains: when the configure step fails, the build aborts with
/// that step's exit status and output, no further sub-step is ever asked
/// for, and no later outcome moves the build anywhere else. The same holds
/// of a failure in any step: an aborted build stays aborted.
pub proof fn lemma_no_partial_chains(o: StepOutcome)
    requires
        o.exit_code != 0,
    ensures
        advance_spec(BuildPhase::NeedConfigure, o) == BuildPhase::Aborted(
            BuildError::ConfigureFailed(o.exit_code, o.output),
        ),
        build_action_spec(advance_spec(BuildPhase::NeedConfigure, o)) is None,
        forall|o2: StepOutcome|
            advance_spec(advance_spec(BuildPhase::NeedConfigure, o), o2) == advance_spec(
                BuildPhase::NeedConfigure,
                o,
            ),
{
}

/// The build's error always names the step that failed first: the error an
/// aborted build carries is decided at the failing step and never rewritten.
pub proof fn lemma_first_failure_attributed(p: BuildPhase, o: StepOutcome)
    requires
        o.exit_code != 0,
        build_action_spec(p) is Some,
    ensures
        advance_spec(p, o) == BuildPhase::Aborted(
            match build_action_spec(p)->Some_0 {
                BuildStepKind::Configure => BuildError::ConfigureFailed(o.exit_code, o.output),
                BuildStepKind::Compile => BuildError::CompileFailed(o.exit_code, o.output),
                BuildStepKind::Stage => BuildError::InstallFailed(o.exit_code, o.output),
            },
        ),
{
}

} // verus!
