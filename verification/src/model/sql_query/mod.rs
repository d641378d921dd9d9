//! Model for sql query

pub mod request;
pub mod response;
pub mod row;

pub use request::Request;
pub use response::Response;
