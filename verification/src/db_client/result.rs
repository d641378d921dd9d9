//! Results of a client, table by table.

use vstd::prelude::*;
use crate::errors::Error;
use crate::model::row::QueryResponse;
use crate::model::write::Response;

verus! {

/// Query result of a client.
///
/// It just wraps the response of a query simply now, and may contains more
/// contents in future.
pub struct QueryResult {
    pub result: Result<QueryResponse, Error>,
}

impl QueryResult {
    pub fn new(result: Result<QueryResponse, Error>) -> (r: Self)
        ensures
            r.result == result,
    {
        Self { result }
    }
}

/// Write result of a client.
///
/// It contains metrics(tables) and their related write results.
pub struct WriteResult {
    pub metrics: Vec<String>,
    pub result: Result<Response, Error>,
}

impl WriteResult {
    pub fn new(metrics: Vec<String>, result: Result<Response, Error>) -> (r: Self)
        ensures
            r.metrics == metrics,
            r.result == result,
    {
        Self { metrics, result }
    }
}

} // verus!
