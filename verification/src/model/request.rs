//! Query request

use vstd::prelude::*;

verus! {

/// Query request
#[derive(Debug, Clone)]
pub struct QueryRequest {
    pub metrics: Vec<String>,
    pub ql: String,
}

} // verus!
