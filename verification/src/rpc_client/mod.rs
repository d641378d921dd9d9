//! What the client hands to every call of a server.

pub mod mock_rpc_client;
pub mod rpc_client_impl;

use vstd::prelude::*;
use std::time::Duration;

pub use mock_rpc_client::MockRpcClient;
pub use rpc_client_impl::RpcClientImplFactory;

verus! {

/// The text of an optional string.
pub open spec fn text_of(s: Option<String>) -> Option<Seq<char>> {
    match s {
        Some(s) => Some(s@),
        None => None,
    }
}

/// Context for rpc request.
#[derive(Debug)]
pub struct RpcContext {
    pub database: Option<String>,
    pub timeout: Option<Duration>,
}

impl Clone for RpcContext {
    fn clone(&self) -> (r: Self)
        ensures
            text_of(r.database) == text_of(self.database),
            r.timeout == self.timeout,
    {
        RpcContext {
            database: match &self.database {
                Some(d) => Some(d.clone()),
                None => None,
            },
            timeout: self.timeout,
        }
    }
}

impl Default for RpcContext {
    fn default() -> (r: Self)
        ensures
            r.database is None,
            r.timeout is None,
    {
        RpcContext { database: None, timeout: None }
    }
}

impl RpcContext {
    /// The context with the database set.
    pub fn database(self, database: String) -> (r: Self)
        ensures
            r.database == Some(database),
            r.timeout == self.timeout,
    {
        let mut ctx = self;
        ctx.database = Some(database);
        ctx
    }

    /// The context with the timeout set.
    pub fn timeout(self, timeout: Duration) -> (r: Self)
        ensures
            r.database == self.database,
            r.timeout == Some(timeout),
    {
        let mut ctx = self;
        ctx.timeout = Some(timeout);
        ctx
    }
}

} // verus!
