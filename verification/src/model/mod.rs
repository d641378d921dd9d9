//! Data model.

pub mod convert;
pub mod request;
pub mod route;
pub mod row;
pub mod sql_query;
pub mod value;
pub mod write;
