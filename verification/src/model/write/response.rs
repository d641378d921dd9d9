//! What the server answers to a write.

use vstd::prelude::*;

verus! {

/// The response for a write request.
#[derive(Clone, Debug)]
pub struct Response {
    /// The number of the rows written successfully
    pub success: u32,
    /// The number of the rows which fail to write
    pub failed: u32,
}

impl Response {
    pub fn new(success: u32, failed: u32) -> (r: Self)
        ensures
            r.success == success,
            r.failed == failed,
    {
        Self { success, failed }
    }
}

} // verus!
