//! Error in client

use vstd::prelude::*;
use crate::model::write::Response;

verus! {

/// The status with which an rpc fails. The client hands it on unread.
#[verifier::external_type_specification]
#[verifier::external_body]
pub struct ExStatus(tonic::Status);

/// What can go wrong in the client.
#[derive(Debug)]
pub enum Error {
    /// Error from the running server
    Server(ServerError),
    /// Error from the rpc
    /// Note that any error caused by a running server wont be wrapped in the
    /// grpc errors.
    Rpc(tonic::Status),
    /// Error about rpc.
    /// It will be throw while connection between client and server is broken
    /// and try for reconnecting is failed(timeout). `source` is the cause as
    /// text.
    Connect { addr: String, source: String },
    /// Error from the client and basically the rpc request has not been called
    /// yet or the rpc request has already been finished successfully.
    Client(String),
    /// Error about authentication
    AuthFail(AuthFailStatus),
    /// Error from write in route based mode, some of rows may be written
    /// successfully, and others may fail.
    RouteBasedWriteError(RouteBasedWriteError),
    /// Error unknown
    Unknown(String),
    /// Rows of a query result could not be built.
    BuildRows(String),
    /// The payload of a query result could not be decoded; the cause as text.
    DecodeArrowPayload(String),
    /// Neither the request nor the client names a database.
    NoDatabase,
}

/// The failure that a server reports: its code and its message.
#[derive(Debug, Clone)]
pub struct ServerError {
    pub code: u32,
    pub msg: String,
}

/// The refusal of a call that lacks authority.
#[derive(Debug, Clone)]
pub struct AuthFailStatus {
    pub code: AuthCode,
    pub msg: String,
}

/// Why a call lacks authority.
#[derive(Debug, Clone)]
pub enum AuthCode {
    Success,
    InvalidTenantMeta,
    InvalidTokenMeta,
}

/// The tables of one partition of a write, and how its dispatch ended.
pub type PartitionOutcome = (Vec<String>, Result<Response, Error>);

/// The tables of the partitions that succeeded, in the order of the
/// partitions.
pub open spec fn succeeded_tables(outcomes: Seq<PartitionOutcome>) -> Seq<String>
    decreases outcomes.len(),
{
    if outcomes.len() == 0 {
        Seq::empty()
    } else {
        let before = succeeded_tables(outcomes.drop_last());
        match outcomes.last().1 {
            Ok(_) => before + outcomes.last().0@,
            Err(_) => before,
        }
    }
}

/// The rows that the partitions that succeeded report as written.
pub open spec fn rows_succeeded(outcomes: Seq<PartitionOutcome>) -> nat
    decreases outcomes.len(),
{
    if outcomes.len() == 0 {
        0
    } else {
        let before = rows_succeeded(outcomes.drop_last());
        match outcomes.last().1 {
            Ok(resp) => before + resp.success as nat,
            Err(_) => before,
        }
    }
}

/// The rows that the partitions that succeeded report as not written.
pub open spec fn rows_failed(outcomes: Seq<PartitionOutcome>) -> nat
    decreases outcomes.len(),
{
    if outcomes.len() == 0 {
        0
    } else {
        let before = rows_failed(outcomes.drop_last());
        match outcomes.last().1 {
            Ok(resp) => before + resp.failed as nat,
            Err(_) => before,
        }
    }
}

/// The partitions that failed, each with its tables and its error, in the
/// order of the partitions.
pub open spec fn failed_partitions(outcomes: Seq<PartitionOutcome>) -> Seq<(Vec<String>, Error)>
    decreases outcomes.len(),
{
    if outcomes.len() == 0 {
        Seq::empty()
    } else {
        let before = failed_partitions(outcomes.drop_last());
        match outcomes.last().1 {
            Ok(_) => before,
            Err(e) => before.push((outcomes.last().0, e)),
        }
    }
}

/// Merging is additive: the outcomes of `a` followed by those of `b` give the
/// sums of the counts, and the tables and failures of `a` followed by those
/// of `b`. So the counts do not depend on the order of the partitions, and no
/// partition is left out or counted twice.
pub proof fn lemma_merge_is_additive(a: Seq<PartitionOutcome>, b: Seq<PartitionOutcome>)
    ensures
        succeeded_tables(a + b) == succeeded_tables(a) + succeeded_tables(b),
        rows_succeeded(a + b) == rows_succeeded(a) + rows_succeeded(b),
        rows_failed(a + b) == rows_failed(a) + rows_failed(b),
        failed_partitions(a + b) == failed_partitions(a) + failed_partitions(b),
    decreases b.len(),
{
    if b.len() == 0 {
        assert(a + b == a);
    } else {
        assert((a + b).drop_last() == a + b.drop_last());
        assert((a + b).last() == b.last());
        lemma_merge_is_additive(a, b.drop_last());
    }
}

/// The outcome of a write over several endpoints: what succeeded, merged, and
/// each partition that failed.
#[derive(Debug)]
pub struct RouteBasedWriteError {
    /// (tables, write_response)
    pub ok: (Vec<String>, Response),
    /// [(tables, errors)]
    pub errors: Vec<(Vec<String>, Error)>,
}

impl RouteBasedWriteError {
    /// Merges the outcomes of the partitions of one write.
    pub fn from(write_results: Vec<PartitionOutcome>) -> (r: Self)
        requires
            rows_succeeded(write_results@) <= u32::MAX,
            rows_failed(write_results@) <= u32::MAX,
        ensures
            r.ok.0@ == succeeded_tables(write_results@),
            r.ok.1.success == rows_succeeded(write_results@),
            r.ok.1.failed == rows_failed(write_results@),
            r.errors@ == failed_partitions(write_results@),
    {
        let mut success_total: u32 = 0;
        let mut failed_total: u32 = 0;
        let mut ok_tables: Vec<String> = Vec::new();
        let mut errors: Vec<(Vec<String>, Error)> = Vec::new();
        let ghost all = write_results@;
        for outcome in it: write_results.into_iter()
            invariant
                it.seq() == all,
                rows_succeeded(all) <= u32::MAX,
                rows_failed(all) <= u32::MAX,
                success_total == rows_succeeded(all.take(it.index())),
                failed_total == rows_failed(all.take(it.index())),
                ok_tables@ == succeeded_tables(all.take(it.index())),
                errors@ == failed_partitions(all.take(it.index())),
        {
            proof {
                let k = it.index();
                assert(all.take(k + 1).drop_last() == all.take(k));
                assert(all.take(k + 1).last() == outcome);
                assert(all == all.take(k + 1) + all.skip(k + 1));
                lemma_merge_is_additive(all.take(k + 1), all.skip(k + 1));
            }
            let (mut tables, write_result) = outcome;
            match write_result {
                Ok(write_resp) => {
                    success_total += write_resp.success;
                    failed_total += write_resp.failed;
                    ok_tables.append(&mut tables);
                },
                Err(e) => {
                    errors.push((tables, e));
                },
            }
        }
        assert(all.take(all.len() as int) == all);
        Self { ok: (ok_tables, Response::new(success_total, failed_total)), errors }
    }

    /// No partition failed.
    pub fn all_ok(&self) -> (r: bool)
        ensures
            r == (self.errors@.len() == 0),
    {
        self.errors.is_empty()
    }
}

} // verus!
