//! The error taxonomy: every stage returns a typed result, and the pipeline
//! surfaces the originating error rather than reinterpreting it.

use vstd::prelude::*;

verus! {

/// Failures of the package ledger.
#[derive(Debug, PartialEq, Eq, Clone, Copy, Structural)]
pub enum LedgerError {
    PermissionDenied,
    IoFailure,
    Corrupt,
}

/// Failures of the archive fetcher: a single best-effort attempt, so each
/// failure mode is precisely attributable.
#[derive(Debug, PartialEq, Eq, Clone, Copy, Structural)]
pub enum FetchError {
    Unreachable,
    NotFound,
    CorruptArchive,
    IoFailure,
}

/// Failures of the build executor: the first failing sub-step's exit status
/// and captured diagnostic output.
#[derive(Debug, PartialEq, Eq)]
pub enum BuildError {
    ConfigureFailed(i32, Vec<u8>),
    CompileFailed(i32, Vec<u8>),
    InstallFailed(i32, Vec<u8>),
}

/// Failures of command selection, before any pipeline work.
#[derive(Debug, PartialEq, Eq, Clone, Copy, Structural)]
pub enum CommandError {
    MissingUrl,
    InvalidFlags,
}

} // verus!
