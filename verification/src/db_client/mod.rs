//! The clients: what they decide, step by step.

pub mod builder;
pub mod cluster;
pub mod outcome;
pub mod partition;
pub mod pool;
pub mod raw;
pub mod result;
pub mod route_based;

pub use builder::{Builder, ClientKind, Mode};

use vstd::prelude::*;
use crate::errors::Error;
use crate::rpc_client::{text_of, RpcContext};

verus! {

/// The database of a call: the one that its context names, else the
/// client's default.
pub open spec fn database_of(ctx: Option<Seq<char>>, default_database: Option<Seq<char>>) -> Option<
    Seq<char>,
> {
    match ctx {
        Some(d) => Some(d),
        None => default_database,
    }
}

/// The context with which a call goes out: that of the caller, with the
/// client's default database where the caller names none. A call without
/// any database is refused.
pub fn resolve_database(ctx: &RpcContext, default_database: &Option<String>) -> (r: Result<
    RpcContext,
    Error,
>)
    ensures
        match r {
            Ok(resolved) => {
                &&& text_of(resolved.database) is Some
                &&& text_of(resolved.database) == database_of(
                    text_of(ctx.database),
                    text_of(*default_database),
                )
                &&& resolved.timeout == ctx.timeout
            },
            Err(e) => {
                &&& e is NoDatabase
                &&& database_of(text_of(ctx.database), text_of(*default_database)) is None
            },
        },
{
    match (&ctx.database, default_database) {
        (Some(_), _) => Ok(ctx.clone()),
        (None, Some(default_database)) => Ok(
            RpcContext { database: Some(default_database.clone()), timeout: ctx.timeout },
        ),
        (None, None) => Err(Error::NoDatabase),
    }
}

} // verus!
