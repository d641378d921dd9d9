//! Client for horaedb of standalone mode.

use vstd::prelude::*;
use crate::db_client::{database_of, resolve_database};
use crate::errors::Error;
use crate::rpc_client::{text_of, RpcContext};

verus! {

/// Client for horaedb of standalone mode: every call goes to the one
/// endpoint that it was made with.
pub struct RawImpl {
    endpoint: String,
    default_database: Option<String>,
}

impl RawImpl {
    /// The endpoint that every call goes to.
    pub closed spec fn endpoint(&self) -> Seq<char> {
        self.endpoint@
    }

    /// The database of the calls that name none.
    pub closed spec fn default_database(&self) -> Option<Seq<char>> {
        text_of(self.default_database)
    }

    pub fn new(endpoint: String, default_database: Option<String>) -> (r: Self)
        ensures
            r.endpoint() == endpoint@,
            r.default_database() == text_of(default_database),
    {
        Self { endpoint, default_database }
    }

    /// The endpoint that every call goes to.
    pub fn target(&self) -> (r: &String)
        ensures
            r@ == self.endpoint(),
    {
        &self.endpoint
    }

    /// The context with which a query or a write goes out, or the refusal
    /// of a call without database.
    pub fn context(&self, ctx: &RpcContext) -> (r: Result<RpcContext, Error>)
        ensures
            match r {
                Ok(resolved) => {
                    &&& text_of(resolved.database) is Some
                    &&& text_of(resolved.database) == database_of(
                        text_of(ctx.database),
                        self.default_database(),
                    )
                    &&& resolved.timeout == ctx.timeout
                },
                Err(e) => {
                    &&& e is NoDatabase
                    &&& database_of(text_of(ctx.database), self.default_database()) is None
                },
            },
    {
        resolve_database(ctx, &self.default_database)
    }
}

} // verus!
