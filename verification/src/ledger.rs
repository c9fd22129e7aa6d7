//! The package ledger: a durable, append-only log of install outcomes.
//! This module holds the in-memory image of the ledger file and the pure
//! decisions (membership, bootstrap); the caller performs the file reads
//! and the locked, atomic appends, handing content and lines across.

use vstd::prelude::*;
use crate::codec::enc_record;
use crate::codec::encode_record;
use crate::codec::lemma_parse_content_wf;
use crate::codec::parse_all;
use crate::codec::parse_content;
use crate::errors::LedgerError;
use crate::ident::PackageIdentity;
use crate::ident::bytes_eq;
use crate::records::PackageRecord;
use crate::records::PackageStatus;
use crate::records::RecordV;
use crate::records::StatusV;
use crate::records::valid_reason;
use crate::records::views_of;

verus! {

/// Status of the most recent record for an identity, if any.
pub open spec fn last_status_of(rs: Seq<RecordV>, id: Seq<u8>) -> Option<StatusV>
    decreases rs.len(),
{
    if rs.len() == 0 {
        None
    } else if rs.last().identity == id {
        Some(rs.last().status)
    } else {
        last_status_of(rs.drop_last(), id)
    }
}

/// Most-recent-wins: a package is installed iff the latest record for its
/// identity has status `Installed`. A stale `Installed` record before a
/// later `Failed` one does not count.
pub open spec fn is_installed(rs: Seq<RecordV>, id: Seq<u8>) -> bool {
    last_status_of(rs, id) == Some(StatusV::Installed)
}

/// The decisive record is always the appended one: a new record for an
/// identity supersedes whatever stood in the ledger for it before.
pub proof fn lemma_most_recent_wins(rs: Seq<RecordV>, r: RecordV, id: Seq<u8>)
    requires
        r.identity == id,
    ensures
        is_installed(rs.push(r), id) <==> r.status == StatusV::Installed,
{
    assert(rs.push(r).last() == r);
}

/// A record for one identity never disturbs what the ledger says of another.
pub proof fn lemma_append_other_identity(rs: Seq<RecordV>, r: RecordV, id: Seq<u8>)
    requires
        r.identity != id,
    ensures
        last_status_of(rs.push(r), id) == last_status_of(rs, id),
{
    assert(rs.push(r).last() == r);
    assert(rs.push(r).drop_last() =~= rs);
}

/// In-memory image of the ledger file: records in insertion order.
#[derive(Debug)]
pub struct Database {
    records: Vec<PackageRecord>,
}

impl View for Database {
    type V = Seq<RecordV>;

    closed spec fn view(&self) -> Seq<RecordV> {
        views_of(self.records@)
    }
}

impl Database {
    /// Every held record is well-formed.
    pub open spec fn inv(&self) -> bool {
        forall|i: int| 0 <= i < self@.len() ==> (#[trigger] self@[i]).wf()
    }

    /// An empty ledger image.
    pub fn new() -> (d: Database)
        ensures
            d@ == Seq::<RecordV>::empty(),
            d.inv(),
    {
        let d = Database { records: Vec::new() };
        proof {
            assert(d@ =~= Seq::<RecordV>::empty());
        }
        d
    }

    /// Parses raw ledger file content into a ledger image; `Corrupt`
    /// exactly when the content is not a sequence of record lines.
    pub fn load(content: &Vec<u8>) -> (r: Result<Database, LedgerError>)
        ensures
            match parse_content(content@) {
                Some(rvs) => r matches Ok(d) && d@ == rvs && d.inv(),
                None => r == Err::<Database, LedgerError>(LedgerError::Corrupt),
            },
    {
        match parse_all(content) {
            Ok(recs) => {
                proof {
                    lemma_parse_content_wf(content@);
                }
                Ok(Database { records: recs })
            },
            Err(e) => Err(e),
        }
    }

    /// Whether the most recent record for `id` has status `Installed`.
    pub fn find(&self, id: &PackageIdentity) -> (r: bool)
        ensures
            r == is_installed(self@, id@),
    {
        let n = self.records.len();
        proof {
            assert(self@.subrange(0, n as int) =~= self@);
        }
        let mut i = n;
        while i > 0
            invariant
                i <= n == self.records.len(),
                last_status_of(self@, id@) == last_status_of(self@.subrange(0, i as int), id@),
            decreases i,
        {
            i = i - 1;
            let rec = &self.records[i];
            let ghost pre = self@.subrange(0, i + 1 as int);
            proof {
                assert(pre.last() == self@[i as int]);
                assert(self@[i as int] == rec@);
            }
            if bytes_eq(rec.identity.as_bytes(), id.as_bytes()) {
                proof {
                    assert(last_status_of(pre, id@) == Some(rec@.status));
                }
                match &rec.status {
                    PackageStatus::Installed => {
                        return true;
                    },
                    PackageStatus::Failed(_) => {
                        return false;
                    },
                }
            }
            proof {
                assert(pre.drop_last() =~= self@.subrange(0, i as int));
            }
        }
        proof {
            assert(self@.subrange(0, 0) =~= Seq::<RecordV>::empty());
        }
        false
    }

    /// Appends one record to the image; never deduplicates or rewrites
    /// prior entries. Returns the encoded line whose atomic append makes
    /// the change durable.
    pub fn update(&mut self, identity: PackageIdentity, status: PackageStatus, timestamp: u64) -> (
        line: Vec<u8>)
        requires
            old(self).inv(),
            identity.wf(),
            old(self)@.len() < usize::MAX,
            status@ matches StatusV::Failed(reason) ==> valid_reason(reason),
        ensures
            final(self)@ == old(self)@.push(
                RecordV { identity: identity@, status: status@, timestamp: timestamp },
            ),
            final(self).inv(),
            line@ == enc_record(RecordV { identity: identity@, status: status@, timestamp: timestamp }),
    {
        let rec = PackageRecord { identity, status, timestamp };
        let line = encode_record(&rec);
        self.records.push(rec);
        proof {
            assert(self@ =~= old(self)@.push(
                RecordV { identity: identity@, status: status@, timestamp: timestamp },
            ));
        }
        line
    }

    /// Ledger contents in insertion order, for display only.
    pub fn list(&self) -> (r: &Vec<PackageRecord>)
        ensures
            views_of(r@) == self@,
    {
        &self.records
    }
}

/// What setup sees of the ledger's environment: whether the parent
/// directory and the ledger file already exist.
#[derive(Debug, PartialEq, Eq, Clone, Copy, Structural)]
pub struct LedgerEnv {
    pub dir_exists: bool,
    pub file_exists: bool,
}

/// The filesystem actions that make the ledger ready.
#[derive(Debug, PartialEq, Eq, Clone, Copy, Structural)]
pub struct SetupPlan {
    pub create_dir: bool,
    pub create_file: bool,
}

/// Create exactly what is missing, and nothing that exists.
pub open spec fn setup_plan_spec(env: LedgerEnv) -> SetupPlan {
    SetupPlan { create_dir: !env.dir_exists, create_file: !env.file_exists }
}

/// The environment after the plan's actions have succeeded.
pub open spec fn apply_setup(env: LedgerEnv, p: SetupPlan) -> LedgerEnv {
    LedgerEnv {
        dir_exists: env.dir_exists || p.create_dir,
        file_exists: env.file_exists || p.create_file,
    }
}

/// Decides the setup actions for the ledger: create the parent directory
/// and the ledger file iff each is missing.
pub fn ensure_ready(env: LedgerEnv) -> (p: SetupPlan)
    ensures
        p == setup_plan_spec(env),
{
    SetupPlan { create_dir: !env.dir_exists, create_file: !env.file_exists }
}

/// Ledger bootstrap: on a fresh environment the plan creates the parent
/// directory and exactly one ledger file; afterwards the environment is
/// ready, the next plan is a no-op, and running it changes nothing.
pub proof fn lemma_bootstrap_idempotent(env: LedgerEnv)
    ensures
        apply_setup(env, setup_plan_spec(env)) == (LedgerEnv {
            dir_exists: true,
            file_exists: true,
        }),
        setup_plan_spec(apply_setup(env, setup_plan_spec(env))) == (SetupPlan {
            create_dir: false,
            create_file: false,
        }),
        apply_setup(
            apply_setup(env, setup_plan_spec(env)),
            setup_plan_spec(apply_setup(env, setup_plan_spec(env))),
        ) == apply_setup(env, setup_plan_spec(env)),
        !env.file_exists ==> setup_plan_spec(env).create_file,
        env.file_exists ==> !setup_plan_spec(env).create_file,
{
}

} // verus!
