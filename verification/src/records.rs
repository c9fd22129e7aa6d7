//! Ledger records: one entry per terminal install attempt, never mutated in
//! place.

use vstd::prelude::*;
use crate::ident::PackageIdentity;
use crate::ident::valid_identity;

verus! {

/// A failure reason may hold any bytes except a line break, so that a
/// record always stays on one ledger line.
pub open spec fn valid_reason(s: Seq<u8>) -> bool {
    forall|i: int| 0 <= i < s.len() ==> s[i] != 10u8
}

/// Outcome of an install attempt, at the specification level.
pub enum StatusV {
    Installed,
    Failed(Seq<u8>),
}

/// One ledger entry, at the specification level.
pub struct RecordV {
    pub identity: Seq<u8>,
    pub status: StatusV,
    pub timestamp: u64,
}

impl RecordV {
    /// Well-formedness: the identity is a valid URL and a failure reason
    /// fits on one line.
    pub open spec fn wf(self) -> bool {
        &&& valid_identity(self.identity)
        &&& match self.status {
            StatusV::Installed => true,
            StatusV::Failed(reason) => valid_reason(reason),
        }
    }
}

/// Outcome of an install attempt.
#[derive(Debug, PartialEq, Eq)]
pub enum PackageStatus {
    Installed,
    Failed(Vec<u8>),
}

impl View for PackageStatus {
    type V = StatusV;

    open spec fn view(&self) -> StatusV {
        match self {
            PackageStatus::Installed => StatusV::Installed,
            PackageStatus::Failed(reason) => StatusV::Failed(reason@),
        }
    }
}

/// One entry in the package ledger.
#[derive(Debug, PartialEq, Eq)]
pub struct PackageRecord {
    pub identity: PackageIdentity,
    pub status: PackageStatus,
    pub timestamp: u64,
}

impl View for PackageRecord {
    type V = RecordV;

    open spec fn view(&self) -> RecordV {
        RecordV { identity: self.identity@, status: self.status@, timestamp: self.timestamp }
    }
}

/// The specification-level image of a sequence of records.
pub open spec fn views_of(rs: Seq<PackageRecord>) -> Seq<RecordV> {
    rs.map_values(|r: PackageRecord| r@)
}

} // verus!
