//! Client-side routing core of a HoraeDB client.
//!
//! Given table names, the router finds and caches the endpoint that serves
//! each table. The route based client uses it to split a write over several
//! tables into one sub-request per endpoint and to merge the outcomes.
//!
//! Nothing here performs I/O: every exchange with a server is described as a
//! step that the caller performs, handing the answer back to the library.

pub mod cache;
pub mod client;
pub mod config;
pub mod db_client;
pub mod errors;
pub mod model;
pub mod route_client;
pub mod router;
pub mod rpc_client;
pub mod util;

pub use crate::config::{Authorization, RpcConfig};
pub use crate::db_client::{Builder, Mode};
pub use crate::errors::Error;
pub use crate::model::sql_query::{Request as SqlQueryRequest, Response as SqlQueryResponse};
pub use crate::model::write::{Request as WriteRequest, Response as WriteResponse};
pub use crate::rpc_client::RpcContext;
pub use crate::util::{is_ok, should_refresh, StatusCode};
