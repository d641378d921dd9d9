//! What the client over grpc decides before and after a call.

use vstd::prelude::*;
use std::time::Duration;
use crate::config::{Authorization, RpcConfig};
use crate::errors::{Error, ServerError};
use crate::rpc_client::RpcContext;
use crate::util::{is_ok, StatusCode};

verus! {

/// The verdict on the header of a response: a code other than that of
/// success is an error of the server, with the header's code and message.
pub fn check_status(code: u32, error: String) -> (r: Result<(), Error>)
    ensures
        match r {
            Ok(_) => code == StatusCode::Success.code(),
            Err(e) => {
                &&& code != StatusCode::Success.code()
                &&& e matches Error::Server(server_error)
                &&& server_error.code == code
                &&& server_error.msg == error
            },
        },
{
    if !is_ok(code) {
        return Err(Error::Server(ServerError { code, msg: error }));
    }
    Ok(())
}

/// The time that a call may take: what its context says, else the default of
/// its kind.
pub fn request_timeout(ctx: &RpcContext, default_timeout: Duration) -> (r: Duration)
    ensures
        r == match ctx.timeout {
            Some(timeout) => timeout,
            None => default_timeout,
        },
{
    match ctx.timeout {
        Some(timeout) => timeout,
        None => default_timeout,
    }
}

/// How the channel to an endpoint is set up.
#[derive(Debug)]
pub struct ChannelSettings {
    /// The endpoint with its scheme.
    pub uri: String,
    pub connect_timeout: Duration,
    pub keep_alive_while_idle: bool,
    /// Set where connections are kept alive while idle.
    pub keep_alive_timeout: Option<Duration>,
    /// Set where connections are kept alive while idle.
    pub http2_keep_alive_interval: Option<Duration>,
}

/// What connections are made with: the config and the authorization.
pub struct RpcClientImplFactory {
    rpc_config: RpcConfig,
    authorization: Option<Authorization>,
}

impl RpcClientImplFactory {
    pub closed spec fn rpc_config(&self) -> RpcConfig {
        self.rpc_config
    }

    pub closed spec fn authorization(&self) -> Option<Authorization> {
        self.authorization
    }

    pub fn new(rpc_config: RpcConfig, authorization: Option<Authorization>) -> (r: Self)
        ensures
            r.rpc_config() == rpc_config,
            r.authorization() == authorization,
    {
        Self { rpc_config, authorization }
    }

    /// The endpoint, which has the form `{ip_addr}:{port}`, as an address
    /// over http.
    pub fn make_endpoint_with_scheme(endpoint: &str) -> (r: String)
        ensures
            r@ == "http://"@ + endpoint@,
    {
        let mut with_scheme = String::from_str("http://");
        with_scheme.append(endpoint);
        with_scheme
    }

    /// The settings of the channel to `endpoint`. The keep-alive timeout and
    /// interval are set only where connections are kept alive while idle.
    pub fn channel_settings(&self, endpoint: &str) -> (r: ChannelSettings)
        ensures
            r.uri@ == "http://"@ + endpoint@,
            r.connect_timeout == self.rpc_config().connect_timeout,
            r.keep_alive_while_idle == self.rpc_config().keep_alive_while_idle,
            r.keep_alive_timeout == if self.rpc_config().keep_alive_while_idle {
                Some(self.rpc_config().keep_alive_timeout)
            } else {
                None
            },
            r.http2_keep_alive_interval == if self.rpc_config().keep_alive_while_idle {
                Some(self.rpc_config().keep_alive_interval)
            } else {
                None
            },
    {
        let uri = Self::make_endpoint_with_scheme(endpoint);
        if self.rpc_config.keep_alive_while_idle {
            ChannelSettings {
                uri,
                connect_timeout: self.rpc_config.connect_timeout,
                keep_alive_while_idle: true,
                keep_alive_timeout: Some(self.rpc_config.keep_alive_timeout),
                http2_keep_alive_interval: Some(self.rpc_config.keep_alive_interval),
            }
        } else {
            ChannelSettings {
                uri,
                connect_timeout: self.rpc_config.connect_timeout,
                keep_alive_while_idle: false,
                keep_alive_timeout: None,
                http2_keep_alive_interval: None,
            }
        }
    }

    /// The time that a query may take where its context names none.
    pub fn default_read_timeout(&self) -> (r: Duration)
        ensures
            r == self.rpc_config().default_sql_query_timeout,
    {
        self.rpc_config.default_sql_query_timeout
    }

    /// The time that a write, or asking for routes, may take where the
    /// context names none.
    pub fn default_write_timeout(&self) -> (r: Duration)
        ensures
            r == self.rpc_config().default_write_timeout,
    {
        self.rpc_config.default_write_timeout
    }
}

} // verus!
