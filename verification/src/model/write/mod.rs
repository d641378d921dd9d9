//! Model for write.

pub mod pb_builder;
pub mod point;
pub mod request;
pub mod response;

pub use pb_builder::WriteTableRequestPbsBuilder;
pub use request::Request;
pub use response::Response;
