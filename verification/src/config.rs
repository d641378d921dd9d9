//! Config for the underlying grpc client

use vstd::prelude::*;
use std::time::Duration;

verus! {

/// The duration of a whole number of seconds.
pub uninterp spec fn duration_of_secs(secs: u64) -> Duration;

/// `Duration::from_secs`: the duration of the given number of whole seconds.
#[verifier::external_body]
pub(crate) fn secs(n: u64) -> (d: Duration)
    ensures
        d == duration_of_secs(n),
{
    Duration::from_secs(n)
}

/// Config for the underlying grpc client
#[derive(Debug)]
pub struct RpcConfig {
    /// Thread num used by the grpc client.
    ///
    /// The number of cpu cores will be used if not set.
    pub thread_num: Option<usize>,
    /// The max length of the message sent to server.
    ///
    /// -1 means unlimited, and the default value is 20MB.
    pub max_send_msg_len: i32,
    /// The max length of the message received from server.
    ///
    /// -1 means unlimited, and the default value is 1GB.
    pub max_recv_msg_len: i32,
    /// The interval for htt2 ping frames.
    ///
    /// Default value is 600s.
    pub keep_alive_interval: Duration,
    /// Timeout for http2 ping frame acknowledgement.
    ///
    /// If the ping is not acknowledged within the timeout, the connection will
    /// be closed, and default value is 3s.
    pub keep_alive_timeout: Duration,
    /// Enables http2_keep_alive or not.
    ///
    /// It is enabled by default.
    pub keep_alive_while_idle: bool,
    /// Timeout for write operation.
    ///
    /// Default value is 5s.
    pub default_write_timeout: Duration,
    /// Timeout for sql_query operation.
    ///
    /// Default value is 60s.
    pub default_sql_query_timeout: Duration,
    /// Timeout for connection.
    ///
    /// Default value is 3s.
    pub connect_timeout: Duration,
    /// Authorization for rpc.
    pub authorization: Option<Authorization>,
}

/// The name and the password with which calls are made.
#[derive(Debug)]
pub struct Authorization {
    pub username: String,
    pub password: String,
}

impl Clone for Authorization {
    fn clone(&self) -> (r: Self)
        ensures
            r.username == self.username,
            r.password == self.password,
    {
        Authorization { username: self.username.clone(), password: self.password.clone() }
    }
}

/// `copy` holds what `config` holds.
pub open spec fn same_config(copy: RpcConfig, config: RpcConfig) -> bool {
    &&& copy.thread_num == config.thread_num
    &&& copy.max_send_msg_len == config.max_send_msg_len
    &&& copy.max_recv_msg_len == config.max_recv_msg_len
    &&& copy.keep_alive_interval == config.keep_alive_interval
    &&& copy.keep_alive_timeout == config.keep_alive_timeout
    &&& copy.keep_alive_while_idle == config.keep_alive_while_idle
    &&& copy.default_write_timeout == config.default_write_timeout
    &&& copy.default_sql_query_timeout == config.default_sql_query_timeout
    &&& copy.connect_timeout == config.connect_timeout
    &&& copy.authorization == config.authorization
}

impl Clone for RpcConfig {
    fn clone(&self) -> (r: Self)
        ensures
            same_config(r, *self),
    {
        RpcConfig {
            thread_num: self.thread_num,
            max_send_msg_len: self.max_send_msg_len,
            max_recv_msg_len: self.max_recv_msg_len,
            keep_alive_interval: self.keep_alive_interval,
            keep_alive_timeout: self.keep_alive_timeout,
            keep_alive_while_idle: self.keep_alive_while_idle,
            default_write_timeout: self.default_write_timeout,
            default_sql_query_timeout: self.default_sql_query_timeout,
            connect_timeout: self.connect_timeout,
            authorization: match &self.authorization {
                Some(a) => Some(a.clone()),
                None => None,
            },
        }
    }
}

/// The config that a client has unless it is given another.
pub open spec fn is_default_config(config: RpcConfig) -> bool {
    &&& config.thread_num is None
    &&& config.max_send_msg_len == 20 * 1024 * 1024
    &&& config.max_recv_msg_len == 1024 * 1024 * 1024
    &&& config.keep_alive_interval == duration_of_secs(600)
    &&& config.keep_alive_timeout == duration_of_secs(3)
    &&& config.keep_alive_while_idle
    &&& config.default_write_timeout == duration_of_secs(5)
    &&& config.default_sql_query_timeout == duration_of_secs(60)
    &&& config.connect_timeout == duration_of_secs(3)
    &&& config.authorization is None
}

impl Default for RpcConfig {
    fn default() -> (r: Self)
        ensures
            is_default_config(r),
    {
        Self {
            thread_num: None,
            // 20MB
            max_send_msg_len: 20971520,
            // 1GB
            max_recv_msg_len: 1073741824,
            keep_alive_interval: secs(600),
            keep_alive_timeout: secs(3),
            keep_alive_while_idle: true,
            default_write_timeout: secs(5),
            default_sql_query_timeout: secs(60),
            connect_timeout: secs(3),
            authorization: None,
        }
    }
}

} // verus!
