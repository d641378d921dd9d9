//! The end of a write: its outcomes merged, and stale routes dropped.

use vstd::prelude::*;
use crate::db_client::partition::Partition;
use crate::errors::{
    failed_partitions, rows_failed, rows_succeeded, succeeded_tables, Error, PartitionOutcome,
    RouteBasedWriteError,
};
use crate::model::route::names;
use crate::model::write::Response;
use crate::router::{evicted, RouterImpl};
use crate::util::{is_stale_route, should_refresh};

verus! {

/// The tables of the partitions whose failure tells that their routes are
/// out of date: the server refused the write as invalid and names a table
/// that it does not find.
pub open spec fn stale_tables(outcomes: Seq<PartitionOutcome>) -> Seq<String>
    decreases outcomes.len(),
{
    if outcomes.len() == 0 {
        Seq::empty()
    } else {
        let before = stale_tables(outcomes.drop_last());
        match outcomes.last().1 {
            Err(Error::Server(e)) => if is_stale_route(e.code, e.msg@) {
                before + outcomes.last().0@
            } else {
                before
            },
            _ => before,
        }
    }
}

/// Each partition with the result of its dispatch.
pub open spec fn dispatched(
    partitions: Seq<Partition>,
    results: Seq<Result<Response, Error>>,
) -> Seq<PartitionOutcome> {
    Seq::new(partitions.len(), |k: int| (partitions[k].tables, results[k]))
}

/// The tables that are no longer cached after a write with these outcomes.
fn collect_stale(outcomes: &Vec<PartitionOutcome>) -> (evicts: Vec<String>)
    ensures
        evicts@ == stale_tables(outcomes@),
{
    let mut evicts: Vec<String> = Vec::new();
    let mut k: usize = 0;
    while k < outcomes.len()
        invariant
            k <= outcomes@.len(),
            evicts@ == stale_tables(outcomes@.take(k as int)),
        decreases outcomes@.len() - k,
    {
        proof {
            assert(outcomes@.take(k + 1).drop_last() == outcomes@.take(k as int));
            assert(outcomes@.take(k + 1).last() == outcomes@[k as int]);
        }
        let ghost before = evicts@;
        let tables = &outcomes[k].0;
        let stale = match &outcomes[k].1 {
            Err(Error::Server(server_error)) => should_refresh(
                server_error.code,
                server_error.msg.as_str(),
            ),
            _ => false,
        };
        if stale {
            let mut j: usize = 0;
            while j < tables.len()
                invariant
                    j <= tables@.len(),
                    evicts@ == before + tables@.take(j as int),
                decreases tables@.len() - j,
            {
                evicts.push(tables[j].clone());
                assert(tables@.take(j + 1) == tables@.take(j as int).push(tables@[j as int]));
                j += 1;
            }
            assert(tables@.take(j as int) == tables@);
        }
        k += 1;
    }
    assert(outcomes@.take(k as int) == outcomes@);
    evicts
}

/// Pairs each partition with the result of its dispatch.
fn pair_up(partitions: Vec<Partition>, results: Vec<Result<Response, Error>>) -> (pairs: Vec<
    PartitionOutcome,
>)
    requires
        partitions@.len() == results@.len(),
    ensures
        pairs@ == dispatched(partitions@, results@),
{
    let ghost want = dispatched(partitions@, results@);
    let mut partitions = partitions;
    let mut results = results;
    let mut backwards: Vec<PartitionOutcome> = Vec::new();
    while partitions.len() > 0
        invariant
            partitions@.len() == results@.len(),
            partitions@.len() + backwards@.len() == want.len(),
            forall|k: int| 0 <= k < partitions@.len() ==> want[k] == (#[trigger] partitions@[k].tables, results@[k]),
            forall|k: int|
                0 <= k < backwards@.len() ==> #[trigger] backwards@[k] == want[want.len() - 1
                    - k],
        decreases partitions@.len(),
    {
        let partition = partitions.pop().unwrap();
        let result = results.pop().unwrap();
        backwards.push((partition.tables, result));
    }
    let mut pairs: Vec<PartitionOutcome> = Vec::new();
    while backwards.len() > 0
        invariant
            pairs@.len() + backwards@.len() == want.len(),
            forall|k: int|
                0 <= k < backwards@.len() ==> #[trigger] backwards@[k] == want[want.len() - 1
                    - k],
            forall|k: int| 0 <= k < pairs@.len() ==> #[trigger] pairs@[k] == want[k],
        decreases backwards@.len(),
    {
        let pair = backwards.pop().unwrap();
        pairs.push(pair);
    }
    assert(pairs@ =~= want);
    pairs
}

/// How a write ends, given the outcome of each partition that went out and
/// the tables that no endpoint serves: `result` is what the caller gets,
/// where `no_endpoint` is the text of the error for those tables.
pub open spec fn write_settled(
    outcomes: Seq<PartitionOutcome>,
    unroutable: Vec<String>,
    no_endpoint: Seq<char>,
    result: Result<Response, Error>,
) -> bool {
    let failed = failed_partitions(outcomes);
    match result {
        Ok(resp) => {
            &&& unroutable@.len() == 0
            &&& failed.len() == 0
            &&& resp.success == rows_succeeded(outcomes)
            &&& resp.failed == rows_failed(outcomes)
        },
        Err(e) => {
            &&& unroutable@.len() > 0 || failed.len() > 0
            &&& e matches Error::RouteBasedWriteError(merged)
            &&& merged.ok.0@ == succeeded_tables(outcomes)
            &&& merged.ok.1.success == rows_succeeded(outcomes)
            &&& merged.ok.1.failed == rows_failed(outcomes)
            &&& if unroutable@.len() == 0 {
                merged.errors@ == failed
            } else {
                &&& merged.errors@.len() == failed.len() + 1
                &&& merged.errors@.drop_last() == failed
                &&& merged.errors@.last().0 == unroutable
                &&& merged.errors@.last().1 matches Error::Unknown(msg)
                &&& msg@ == no_endpoint
            }
        },
    }
}

/// Ends a write: merges the outcomes of its partitions, counts the tables
/// without endpoint as a partition that failed, and drops from the cache the
/// routes of each partition that the server refused as out of date.
pub fn settle_write(
    router: &mut RouterImpl,
    partitions: Vec<Partition>,
    unroutable: Vec<String>,
    results: Vec<Result<Response, Error>>,
    no_endpoint: &str,
) -> (r: Result<Response, Error>)
    requires
        partitions@.len() == results@.len(),
        rows_succeeded(dispatched(partitions@, results@)) <= u32::MAX,
        rows_failed(dispatched(partitions@, results@)) <= u32::MAX,
    ensures
        final(router).default_endpoint() == old(router).default_endpoint(),
        final(router).cache() == evicted(
            old(router).cache(),
            names(stale_tables(dispatched(partitions@, results@))),
        ),
        write_settled(dispatched(partitions@, results@), unroutable, no_endpoint@, r),
{
    let ghost outcomes = dispatched(partitions@, results@);
    let mut tables_result_pairs = pair_up(partitions, results);

    // Evict outdated endpoints.
    let evicts = collect_stale(&tables_result_pairs);
    router.evict(evicts.as_slice());

    if !unroutable.is_empty() {
        let e = Error::Unknown(String::from_str(no_endpoint));
        tables_result_pairs.push((unroutable, Err(e)));
        proof {
            let all = tables_result_pairs@;
            assert(all.drop_last() == outcomes);
            assert(all.last().0 == unroutable);
            assert(all.last().1 is Err);
            assert(failed_partitions(all) == failed_partitions(outcomes).push(
                (unroutable, all.last().1->Err_0),
            ));
            assert(failed_partitions(all).drop_last() == failed_partitions(outcomes));
            assert(succeeded_tables(all) == succeeded_tables(outcomes));
            assert(rows_succeeded(all) == rows_succeeded(outcomes));
            assert(rows_failed(all) == rows_failed(outcomes));
        }
    }
    // Merge results and return.
    let route_based_error = RouteBasedWriteError::from(tables_result_pairs);
    if route_based_error.all_ok() {
        Ok(route_based_error.ok.1)
    } else {
        Err(Error::RouteBasedWriteError(route_based_error))
    }
}

} // verus!
