//! The client of one server over grpc: what it decides once a query has
//! been answered.

use vstd::prelude::*;
use crate::errors::{Error, ServerError};
use crate::model::row::{QueriedRows, QueryResponse};
use crate::util::{is_ok, StatusCode};

verus! {

/// The key of the header that names the tenant.
pub const RPC_HEADER_TENANT_KEY: &'static str = "x-ceresdb-access-tenant";

/// Context for rpc request.
#[derive(Debug)]
pub struct RpcContext {
    pub tenant: String,
    pub token: String,
}

impl RpcContext {
    pub fn new(tenant: String, token: String) -> (r: Self)
        ensures
            r.tenant == tenant,
            r.token == token,
    {
        Self { tenant, token }
    }
}

impl Clone for RpcContext {
    fn clone(&self) -> (r: Self)
        ensures
            r == *self,
    {
        RpcContext { tenant: self.tenant.clone(), token: self.token.clone() }
    }
}

/// What is to be made of the answer to a query.
#[derive(Debug)]
pub enum QueryAnswer {
    /// The response is at hand.
    Done(QueryResponse),
    /// The rows have to be read with the schema.
    Parse,
}

/// What is to be made of the answer to a query, from its header and from
/// whether it holds a schema and rows. A code other than that of success is
/// an error of the server. An answer without schema tells the affected rows;
/// one with a schema and without rows is a result without rows; every other
/// answer has rows to be read.
pub fn query_answer(
    code: u32,
    error: String,
    affected_rows: u32,
    schema_is_empty: bool,
    rows_are_empty: bool,
) -> (r: Result<QueryAnswer, Error>)
    ensures
        match r {
            Err(e) => {
                &&& code != StatusCode::Success.code()
                &&& e matches Error::Server(server_error)
                &&& server_error.code == code
                &&& server_error.msg == error
            },
            Ok(QueryAnswer::Done(QueryResponse::AffectedRows(n))) => {
                &&& code == StatusCode::Success.code()
                &&& schema_is_empty
                &&& n == affected_rows
            },
            Ok(QueryAnswer::Done(QueryResponse::Rows(rows))) => {
                &&& code == StatusCode::Success.code()
                &&& !schema_is_empty
                &&& rows_are_empty
                &&& rows.rows@.len() == 0
                &&& rows.schema.column_schemas@.len() == 0
            },
            Ok(QueryAnswer::Parse) => {
                &&& code == StatusCode::Success.code()
                &&& !schema_is_empty
                &&& !rows_are_empty
            },
        },
{
    if !is_ok(code) {
        return Err(Error::Server(ServerError { code, msg: error }));
    }
    if schema_is_empty {
        return Ok(QueryAnswer::Done(QueryResponse::AffectedRows(affected_rows)));
    }
    if rows_are_empty {
        return Ok(QueryAnswer::Done(QueryResponse::Rows(QueriedRows::default())));
    }
    Ok(QueryAnswer::Parse)
}

/// The response with the rows that were read, or the error of the client
/// with the reason why they could not be read.
pub fn parsed_answer(parsed: Result<QueriedRows, String>) -> (r: Result<QueryResponse, Error>)
    ensures
        match parsed {
            Ok(rows) => r matches Ok(QueryResponse::Rows(found)) && found == rows,
            Err(err_msg) => r matches Err(Error::Client(msg)) && msg == err_msg,
        },
{
    match parsed {
        Ok(rows) => Ok(QueryResponse::Rows(rows)),
        Err(err_msg) => Err(Error::Client(err_msg)),
    }
}

} // verus!
