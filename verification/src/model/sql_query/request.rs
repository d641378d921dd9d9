//! What a sql query asks.

use vstd::prelude::*;

verus! {

/// A sql query, with the tables that it involves.
#[derive(Debug, Clone)]
pub struct Request {
    /// The tables involved in the sql.
    ///
    /// This is a hint, by which the client can find the right server to handle
    /// the query, can accelerate query.
    pub tables: Vec<String>,
    /// The sql for query.
    pub sql: String,
}

} // verus!
