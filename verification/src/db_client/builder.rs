//! The builder of clients.

use vstd::prelude::*;
use crate::config::{is_default_config, Authorization, RpcConfig};
use crate::db_client::raw::RawImpl;
use crate::db_client::route_based::RouteBasedImpl;
use crate::cache::no_clients;
use crate::rpc_client::{text_of, RpcClientImplFactory};

verus! {

/// Access mode to HoraeDB server(s).
#[derive(Debug, Clone, Copy, PartialEq, Eq, Structural)]
pub enum Mode {
    /// When accessing HoraeDB cluster by `Direct` mode, the requests will be
    /// sent directly to the right HoraeDB instance determined by routing
    /// information.
    Direct,
    /// When accessing HoraeDB by `Proxy` mode, the requests are just sent to
    /// any one HoraeDB instance, which takes the responsibilities for
    /// forwarding the requests.
    Proxy,
}

/// What a builder builds: the client of the mode that was asked for.
pub enum ClientKind {
    Direct(RouteBasedImpl),
    Proxy(RawImpl),
}

/// The builder for building a client.
#[derive(Debug)]
pub struct Builder {
    mode: Mode,
    endpoint: String,
    default_database: Option<String>,
    rpc_config: RpcConfig,
    authorization: Option<Authorization>,
}

impl Builder {
    pub closed spec fn mode(&self) -> Mode {
        self.mode
    }

    pub closed spec fn endpoint(&self) -> Seq<char> {
        self.endpoint@
    }

    pub closed spec fn database(&self) -> Option<Seq<char>> {
        text_of(self.default_database)
    }

    pub closed spec fn config(&self) -> RpcConfig {
        self.rpc_config
    }

    pub closed spec fn credentials(&self) -> Option<Authorization> {
        self.authorization
    }

    // We hide this detail new method for the convenience of users.
    pub fn new(endpoint: String, mode: Mode) -> (r: Self)
        ensures
            r.mode() == mode,
            r.endpoint() == endpoint@,
            r.database() is None,
            is_default_config(r.config()),
            r.credentials() is None,
    {
        Self {
            mode,
            endpoint,
            rpc_config: RpcConfig::default(),
            default_database: None,
            authorization: None,
        }
    }

    pub fn default_database(self, default_database: String) -> (r: Self)
        ensures
            r.database() == Some(default_database@),
            r.mode() == self.mode(),
            r.endpoint() == self.endpoint(),
            r.config() == self.config(),
            r.credentials() == self.credentials(),
    {
        let mut builder = self;
        builder.default_database = Some(default_database);
        builder
    }

    pub fn rpc_config(self, rpc_config: RpcConfig) -> (r: Self)
        ensures
            r.config() == rpc_config,
            r.mode() == self.mode(),
            r.endpoint() == self.endpoint(),
            r.database() == self.database(),
            r.credentials() == self.credentials(),
    {
        let mut builder = self;
        builder.rpc_config = rpc_config;
        builder
    }

    pub fn authorization(self, authorization: Authorization) -> (r: Self)
        ensures
            r.credentials() == Some(authorization),
            r.mode() == self.mode(),
            r.endpoint() == self.endpoint(),
            r.database() == self.database(),
            r.config() == self.config(),
    {
        let mut builder = self;
        builder.authorization = Some(authorization);
        builder
    }

    /// The factory of connections with the builder's config and
    /// authorization, and the client of the builder's mode for its endpoint
    /// and default database.
    pub fn build(self) -> (r: (RpcClientImplFactory, ClientKind))
        ensures
            r.0.rpc_config() == self.config(),
            r.0.authorization() == self.credentials(),
            match r.1 {
                ClientKind::Direct(client) => {
                    &&& self.mode() == Mode::Direct
                    &&& client.router_endpoint() == self.endpoint()
                    &&& client.default_database() == self.database()
                    &&& client.clients() == no_clients()
                },
                ClientKind::Proxy(client) => {
                    &&& self.mode() == Mode::Proxy
                    &&& client.endpoint() == self.endpoint()
                    &&& client.default_database() == self.database()
                },
            },
    {
        let rpc_client_factory = RpcClientImplFactory::new(self.rpc_config, self.authorization);
        let client = match self.mode {
            Mode::Direct => ClientKind::Direct(
                RouteBasedImpl::new(self.endpoint, self.default_database),
            ),
            Mode::Proxy => ClientKind::Proxy(RawImpl::new(self.endpoint, self.default_database)),
        };
        (rpc_client_factory, client)
    }
}

} // verus!
