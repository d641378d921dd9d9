//! Status codes of the server and what the client concludes from them.

use vstd::prelude::*;

verus! {

/// Server status code.
#[derive(Debug, Clone, Copy)]
pub enum StatusCode {
    Success,
    InvalidArgument,
    NotFound,
    TooManyRequests,
    InternalError,
}

impl StatusCode {
    /// The number that the server sends for this status.
    pub open spec fn code(self) -> u32 {
        match self {
            StatusCode::Success => 200,
            StatusCode::InvalidArgument => 400,
            StatusCode::NotFound => 404,
            StatusCode::TooManyRequests => 429,
            StatusCode::InternalError => 500,
        }
    }

    /// The number that the server sends for this status.
    pub fn as_u32(&self) -> (r: u32)
        ensures
            r == self.code(),
    {
        match self {
            StatusCode::Success => 200,
            StatusCode::InvalidArgument => 400,
            StatusCode::NotFound => 404,
            StatusCode::TooManyRequests => 429,
            StatusCode::InternalError => 500,
        }
    }
}

/// `needle` occurs in `hay` as a run of consecutive characters.
pub open spec fn occurs_in(needle: Seq<char>, hay: Seq<char>) -> bool {
    exists|i: int|
        0 <= i && i + needle.len() <= hay.len() && #[trigger] hay.subrange(i, i + needle.len())
            == needle
}

/// The status codes and messages after which cached routes are dropped: the
/// server rejected the request as invalid and its message names a table that
/// it does not find.
pub open spec fn is_stale_route(code: u32, msg: Seq<char>) -> bool {
    &&& code == StatusCode::InvalidArgument.code()
    &&& occurs_in("Table"@, msg)
    &&& occurs_in("not found"@, msg)
}

/// `str::contains` with a string pattern: whether the pattern matches a
/// sub-slice of the string. A match of one well-formed string in another
/// starts and ends between characters, so the contract speaks of characters.
#[verifier::external_body]
fn str_contains(hay: &str, needle: &str) -> (r: bool)
    ensures
        r == occurs_in(needle@, hay@),
{
    hay.contains(needle)
}

/// Whether the code is that of success.
pub fn is_ok(code: u32) -> (r: bool)
    ensures
        r == (code == StatusCode::Success.code()),
{
    code == StatusCode::Success.as_u32()
}

/// Whether a failure with this code and message tells that the routes used
/// for the request are out of date.
pub fn should_refresh(code: u32, msg: &str) -> (r: bool)
    ensures
        r == is_stale_route(code, msg@),
{
    code == StatusCode::InvalidArgument.as_u32() && str_contains(msg, "Table") && str_contains(
        msg,
        "not found",
    )
}

} // verus!
