//! Client for route based mode

use vstd::prelude::*;
use crate::cache::{no_clients, no_routes};
use crate::db_client::outcome::{dispatched, settle_write, stale_tables, write_settled};
use crate::db_client::partition::{
    destinations, distinct, distinct_tables, lemma_destinations_distinct, partition_by_endpoint,
    partition_endpoints, partitioned, Partition,
};
use crate::db_client::pool::{
    dense, lemma_pool_only_grows, with_clients, ClientSlot, DirectClientPool,
};
use crate::db_client::{database_of, resolve_database};
use crate::errors::{rows_failed, rows_succeeded, Error};
use crate::model::route::{
    endpoint_views, names, parse_endpoint, route_views, Endpoint, EndpointView, Route,
};
use crate::model::sql_query::Request as SqlQueryRequest;
use crate::model::write::Response;
use crate::router::{
    answers, cached_endpoints, evicted, learned, misses, stray_table, unknown_table_message,
    RoutePending, RouteStep, RouterImpl,
};
use crate::rpc_client::{text_of, RpcContext};

verus! {

/// The endpoint that a query goes to: that of its first table.
pub open spec fn query_endpoint(endpoints: Seq<Option<EndpointView>>) -> Option<EndpointView> {
    if endpoints.len() == 0 {
        None
    } else {
        endpoints[0]
    }
}

/// The endpoint of the first table, or the error with the given text where
/// it has none.
pub fn first_endpoint(endpoints: Vec<Option<Endpoint>>, no_endpoint: &str) -> (r: Result<
    Endpoint,
    Error,
>)
    ensures
        match r {
            Ok(endpoint) => query_endpoint(endpoint_views(endpoints@)) == Some(endpoint@),
            Err(e) => {
                &&& query_endpoint(endpoint_views(endpoints@)) is None
                &&& e matches Error::Unknown(msg)
                &&& msg@ == no_endpoint@
            },
        },
{
    if endpoints.len() > 0 {
        if let Some(endpoint) = &endpoints[0] {
            return Ok(endpoint.clone());
        }
    }
    Err(Error::Unknown(String::from_str(no_endpoint)))
}

/// The text of the error for a query that names no table.
pub const EMPTY_TABLES: &'static str = "tables in query request can't be empty in route based mode";

/// The text of the error for a query whose first table no endpoint serves.
pub const NO_QUERY_ENDPOINT: &'static str = "table doesn't have corresponding endpoint";

/// The text of the error for the tables of a write that no endpoint serves.
pub const NO_WRITE_ENDPOINTS: &'static str = "tables don't have corresponding endpoints";

/// A query that is ready to go out.
#[derive(Debug)]
pub struct QueryTarget {
    /// The context to send it with.
    pub ctx: RpcContext,
    /// The endpoint that serves its first table.
    pub endpoint: Endpoint,
    /// The slot of the client for that endpoint.
    pub client: ClientSlot,
}

/// A query that waits for routes: it goes on with
/// [`RouteBasedImpl::sql_query_routed`].
pub struct QueryRouting {
    pub ctx: RpcContext,
    pub pending: RoutePending,
}

/// What a query has come to.
pub enum QueryStep {
    /// The default endpoint has to be asked for routes.
    Resolve(QueryRouting),
    /// The query can go out.
    Send(QueryTarget),
}

/// A write that is ready to go out: its partitions, the slot of the client
/// for each of them, and the tables that no endpoint serves.
#[derive(Debug)]
pub struct WritePlan {
    pub ctx: RpcContext,
    pub partitions: Vec<Partition>,
    pub clients: Vec<ClientSlot>,
    pub unroutable: Vec<String>,
}

/// A write that waits for routes: it goes on with
/// [`RouteBasedImpl::write_routed`].
pub struct WriteRouting {
    pub ctx: RpcContext,
    pub pending: RoutePending,
}

/// What a write has come to.
pub enum WriteStep {
    /// The default endpoint has to be asked for routes.
    Resolve(WriteRouting),
    /// The partitions can go out.
    Dispatch(WritePlan),
}

/// `resolved` is the context of the caller with the database filled in.
pub open spec fn context_resolved(
    resolved: RpcContext,
    ctx: RpcContext,
    default_database: Option<Seq<char>>,
) -> bool {
    &&& text_of(resolved.database) is Some
    &&& text_of(resolved.database) == database_of(text_of(ctx.database), default_database)
    &&& resolved.timeout == ctx.timeout
}

/// `pending` is the lookup of `tables` in `cache`.
pub open spec fn looked_up(
    pending: RoutePending,
    cache: Map<Seq<char>, EndpointView>,
    tables: Seq<String>,
) -> bool {
    &&& pending.tables() == tables
    &&& pending.cached() == cached_endpoints(cache, names(tables))
    &&& pending.asked() == misses(cache, names(tables))
}

/// `target` is where a query whose tables have these endpoints goes, sent
/// with `ctx`; the pool of clients was `before` and is `after`.
pub open spec fn targeted(
    target: QueryTarget,
    ctx: RpcContext,
    endpoints: Seq<Option<EndpointView>>,
    before: Map<EndpointView, usize>,
    after: Map<EndpointView, usize>,
) -> bool {
    &&& query_endpoint(endpoints) == Some(target.endpoint@)
    &&& text_of(target.ctx.database) == text_of(ctx.database)
    &&& target.ctx.timeout == ctx.timeout
    &&& after == with_clients(before, seq![target.endpoint@])
    &&& target.client.created == !before.contains_key(target.endpoint@)
    &&& target.client.index == after[target.endpoint@]
}

/// `plan` is how a write over `tables` with these endpoints goes out, sent
/// with `ctx`; the pool of clients was `before` and is `after`.
pub open spec fn planned(
    plan: WritePlan,
    ctx: RpcContext,
    tables: Seq<String>,
    endpoints: Seq<Option<EndpointView>>,
    before: Map<EndpointView, usize>,
    after: Map<EndpointView, usize>,
) -> bool {
    &&& partitioned(plan.partitions@, plan.unroutable@, tables, endpoints)
    &&& text_of(plan.ctx.database) == text_of(ctx.database)
    &&& plan.ctx.timeout == ctx.timeout
    &&& after == with_clients(before, destinations(endpoints))
    &&& plan.clients@.len() == plan.partitions@.len()
    &&& forall|k: int|
        0 <= k < plan.clients@.len() ==> (#[trigger] plan.clients@[k]).index
            == after[destinations(endpoints)[k]]
    &&& forall|k: int|
        0 <= k < plan.clients@.len() ==> (#[trigger] plan.clients@[k]).created
            == !before.contains_key(destinations(endpoints)[k])
}

impl DirectClientPool {
    /// Where a query whose tables have these endpoints goes: to the
    /// endpoint of its first table, or nowhere, with the given text as the
    /// error, where that table has none.
    pub fn target(
        &mut self,
        ctx: RpcContext,
        endpoints: Vec<Option<Endpoint>>,
        no_endpoint: &str,
    ) -> (r: Result<
        QueryTarget,
        Error,
    >)
        ensures
            dense(final(self).slots()),
            match r {
                Ok(target) => targeted(
                    target,
                    ctx,
                    endpoint_views(endpoints@),
                    old(self).slots(),
                    final(self).slots(),
                ),
                Err(e) => {
                    &&& query_endpoint(endpoint_views(endpoints@)) is None
                    &&& e matches Error::Unknown(msg)
                    &&& msg@ == no_endpoint@
                    &&& final(self).slots() == old(self).slots()
                },
            },
    {
        match first_endpoint(endpoints, no_endpoint) {
            Ok(endpoint) => {
                let client = self.get_or_create(&endpoint);
                proof {
                    let only = seq![endpoint@];
                    let before = old(self).slots();
                    assert(only.drop_last() == Seq::<EndpointView>::empty());
                    assert(only.last() == endpoint@);
                    assert(with_clients(before, only.drop_last()) == before);
                }
                Ok(QueryTarget { ctx, endpoint, client })
            },
            Err(e) => {
                proof {
                    use_type_invariant(&*self);
                }
                Err(e)
            },
        }
    }


    /// How a write over the tables with these endpoints goes out.
    pub fn plan(&mut self, ctx: RpcContext, tables: &Vec<String>, endpoints: Vec<Option<Endpoint>>) -> (plan:
        WritePlan)
        requires
            tables@.len() == endpoints@.len(),
        ensures
            dense(final(self).slots()),
            planned(
                plan,
                ctx,
                tables@,
                endpoint_views(endpoints@),
                old(self).slots(),
                final(self).slots(),
            ),
    {
        let (partitions, unroutable) = partition_by_endpoint(tables, &endpoints);
        let clients = self.clients_for(&partitions);
        proof {
            let targets = destinations(endpoint_views(endpoints@));
            assert(partition_endpoints(partitions@) == targets);
            lemma_destinations_distinct(endpoint_views(endpoints@));
            assert forall|k: int| 0 <= k < clients@.len() implies (#[trigger] clients@[k]).created
                == !old(self).slots().contains_key(targets[k]) by {
                let sooner = targets.take(k);
                lemma_pool_only_grows(old(self).slots(), sooner);
                if sooner.contains(targets[k]) {
                    let j = choose|j: int| 0 <= j < sooner.len() && sooner[j] == targets[k];
                    assert(targets[j] == targets[k]);
                }
            }
        }
        WritePlan { ctx, partitions, clients, unroutable }
    }
}

/// The text of the error for a router endpoint that cannot be read.
pub open spec fn bad_router_endpoint(router_endpoint: Seq<char>, why: Seq<char>) -> Seq<char> {
    "Failed to parse default endpoint:"@ + router_endpoint + ", err:"@ + why
}

/// Client implementation for horaedb while using route based mode.
///
/// It decides; the caller talks. Each call into a server is a step that the
/// caller performs, after which it hands the answer to the function that
/// goes on from there.
pub struct RouteBasedImpl {
    router_endpoint: String,
    standalone_pool: DirectClientPool,
    default_database: Option<String>,
}

impl RouteBasedImpl {
    /// The endpoint that is asked for routes, as it was given.
    pub closed spec fn router_endpoint(&self) -> Seq<char> {
        self.router_endpoint@
    }

    /// The database of the calls that name none.
    pub closed spec fn default_database(&self) -> Option<Seq<char>> {
        text_of(self.default_database)
    }

    /// The slot of each endpoint that has a client.
    pub closed spec fn clients(&self) -> Map<EndpointView, usize> {
        self.standalone_pool.slots()
    }

    pub fn new(router_endpoint: String, default_database: Option<String>) -> (r: Self)
        ensures
            r.router_endpoint() == router_endpoint@,
            r.default_database() == text_of(default_database),
            r.clients() == no_clients(),
    {
        Self { router_endpoint, standalone_pool: DirectClientPool::new(), default_database }
    }

    /// The router of this client: its cache is empty and its default
    /// endpoint is the router endpoint that the client was made with. It is
    /// to be made once.
    pub fn init_router(&self) -> (r: Result<RouterImpl, Error>)
        ensures
            match r {
                Ok(router) => {
                    &&& parse_endpoint(self.router_endpoint()) == Ok::<EndpointView, Seq<char>>(
                        router.default_endpoint(),
                    )
                    &&& router.cache() == no_routes()
                },
                Err(e) => {
                    &&& parse_endpoint(self.router_endpoint()) matches Err(why)
                    &&& e matches Error::Client(msg)
                    &&& msg@ == bad_router_endpoint(self.router_endpoint(), why)
                },
            },
    {
        match Endpoint::parse(self.router_endpoint.as_str()) {
            Ok(default_endpoint) => Ok(RouterImpl::new(default_endpoint)),
            Err(why) => {
                let mut msg = String::from_str("Failed to parse default endpoint:");
                msg.append(self.router_endpoint.as_str());
                msg.append(", err:");
                msg.append(why.as_str());
                Err(Error::Client(msg))
            },
        }
    }

    /// The endpoint that is asked for routes, as it was given.
    pub fn router_address(&self) -> (r: &String)
        ensures
            r@ == self.router_endpoint(),
    {
        &self.router_endpoint
    }

    /// The context with which a call goes out, or the refusal of a call
    /// without database.
    pub fn context(&self, ctx: &RpcContext) -> (r: Result<RpcContext, Error>)
        ensures
            match r {
                Ok(resolved) => context_resolved(resolved, *ctx, self.default_database()),
                Err(e) => {
                    &&& e is NoDatabase
                    &&& database_of(text_of(ctx.database), self.default_database()) is None
                },
            },
    {
        resolve_database(ctx, &self.default_database)
    }

    /// The context with which a query goes out. A query that names no table
    /// is refused before anything else is looked at, and with it one
    /// without database: no router and no server is needed to tell.
    pub fn sql_query_context(&self, ctx: &RpcContext, req: &SqlQueryRequest) -> (r: Result<
        RpcContext,
        Error,
    >)
        ensures
            match r {
                Err(Error::Unknown(msg)) => req.tables@.len() == 0 && msg@ == EMPTY_TABLES@,
                Err(Error::NoDatabase) => {
                    &&& req.tables@.len() > 0
                    &&& database_of(text_of(ctx.database), self.default_database()) is None
                },
                Err(_) => false,
                Ok(resolved) => {
                    &&& req.tables@.len() > 0
                    &&& context_resolved(resolved, *ctx, self.default_database())
                },
            },
    {
        if req.tables.is_empty() {
            return Err(Error::Unknown(String::from_str(EMPTY_TABLES)));
        }
        resolve_database(ctx, &self.default_database)
    }

    /// Starts a query. One that names no table is refused at once, and so is
    /// one without a database. Otherwise the tables are looked up: where all
    /// are cached the query can go out to the endpoint of its first table,
    /// else the default endpoint has to be asked first.
    pub fn sql_query(&mut self, router: &RouterImpl, ctx: &RpcContext, req: &SqlQueryRequest) -> (r:
        Result<QueryStep, Error>)
        ensures
            dense(final(self).clients()),
            final(self).router_endpoint() == old(self).router_endpoint(),
            final(self).default_database() == old(self).default_database(),
            match r {
                Err(Error::Unknown(msg)) => {
                    &&& req.tables@.len() == 0
                    &&& msg@ == EMPTY_TABLES@
                    &&& final(self).clients() == old(self).clients()
                },
                Err(Error::NoDatabase) => {
                    &&& req.tables@.len() > 0
                    &&& database_of(text_of(ctx.database), old(self).default_database()) is None
                    &&& final(self).clients() == old(self).clients()
                },
                Err(_) => false,
                Ok(QueryStep::Resolve(routing)) => {
                    &&& req.tables@.len() > 0
                    &&& context_resolved(routing.ctx, *ctx, old(self).default_database())
                    &&& misses(router.cache(), names(req.tables@)).len() > 0
                    &&& looked_up(routing.pending, router.cache(), req.tables@)
                    &&& final(self).clients() == old(self).clients()
                },
                Ok(QueryStep::Send(target)) => {
                    &&& req.tables@.len() > 0
                    &&& context_resolved(target.ctx, *ctx, old(self).default_database())
                    &&& misses(router.cache(), names(req.tables@)).len() == 0
                    &&& targeted(
                        target,
                        target.ctx,
                        cached_endpoints(router.cache(), names(req.tables@)),
                        old(self).clients(),
                        final(self).clients(),
                    )
                },
            },
    {
        proof {
            use_type_invariant(&self.standalone_pool);
        }
        if req.tables.is_empty() {
            return Err(Error::Unknown(String::from_str(EMPTY_TABLES)));
        }
        let ctx = match resolve_database(ctx, &self.default_database) {
            Ok(ctx) => ctx,
            Err(e) => {
                return Err(e);
            },
        };
        match router.route(req.tables.as_slice()) {
            RouteStep::Done(endpoints) => {
                proof {
                    crate::router::lemma_misses_are_uncached(router.cache(), names(req.tables@));
                    assert(router.cache().contains_key(names(req.tables@)[0]));
                }
                match self.standalone_pool.target(ctx, endpoints, NO_QUERY_ENDPOINT) {
                    Ok(target) => Ok(QueryStep::Send(target)),
                    Err(e) => Err(e),
                }
            },
            RouteStep::Resolve(pending) => Ok(
                QueryStep::Resolve(QueryRouting { ctx, pending }),
            ),
        }
    }

    /// Goes on with a query once the default endpoint has answered. The
    /// query fails where asking failed or the response is refused; else it
    /// can go out to the endpoint of its first table.
    pub fn sql_query_routed(
        &mut self,
        router: &mut RouterImpl,
        routing: QueryRouting,
        response: Result<Vec<Route>, Error>,
    ) -> (r: Result<QueryTarget, Error>)
        ensures
            dense(final(self).clients()),
            final(self).router_endpoint() == old(self).router_endpoint(),
            final(self).default_database() == old(self).default_database(),
            final(router).default_endpoint() == old(router).default_endpoint(),
            match response {
                Err(failure) => {
                    &&& r matches Err(e)
                    &&& e == failure
                    &&& final(router).cache() == old(router).cache()
                    &&& final(self).clients() == old(self).clients()
                },
                Ok(routes) => match stray_table(routing.pending.asked(), route_views(routes@)) {
                    Some(table) => {
                        &&& r matches Err(Error::Unknown(msg))
                        &&& msg@ == unknown_table_message(table)
                        &&& final(router).cache() == old(router).cache()
                        &&& final(self).clients() == old(self).clients()
                    },
                    None => {
                        let endpoints = answers(
                            names(routing.pending.tables()),
                            routing.pending.cached(),
                            route_views(routes@),
                            old(router).default_endpoint(),
                        );
                        &&& final(router).cache() == learned(
                            old(router).cache(),
                            route_views(routes@),
                        )
                        &&& match r {
                            Ok(target) => targeted(
                                target,
                                routing.ctx,
                                endpoints,
                                old(self).clients(),
                                final(self).clients(),
                            ),
                            Err(e) => {
                                &&& query_endpoint(endpoints) is None
                                &&& e matches Error::Unknown(msg)
                                &&& msg@ == NO_QUERY_ENDPOINT@
                                &&& final(self).clients() == old(self).clients()
                            },
                        }
                    },
                },
            },
    {
        proof {
            use_type_invariant(&self.standalone_pool);
        }
        let QueryRouting { ctx, pending } = routing;
        match router.route_resolved(pending, response) {
            Ok(endpoints) => self.standalone_pool.target(ctx, endpoints, NO_QUERY_ENDPOINT),
            Err(e) => Err(e),
        }
    }

    /// Ends a query. After any failure the routes of all its tables are
    /// dropped from the cache; the result is handed on as it is.
    pub fn sql_query_finished<R>(
        &self,
        router: &mut RouterImpl,
        req: &SqlQueryRequest,
        result: Result<R, Error>,
    ) -> (r: Result<R, Error>)
        ensures
            r == result,
            final(router).default_endpoint() == old(router).default_endpoint(),
            result is Ok ==> final(router).cache() == old(router).cache(),
            result is Err ==> final(router).cache() == evicted(
                old(router).cache(),
                names(req.tables@),
            ),
    {
        if result.is_err() {
            router.evict(req.tables.as_slice());
        }
        result
    }

    /// Starts a write over the given tables. One without a database is
    /// refused. Otherwise the tables, each once, are looked up: where all
    /// are cached the write can go out, split by endpoint, else the default
    /// endpoint has to be asked first.
    pub fn write(&mut self, router: &RouterImpl, ctx: &RpcContext, tables: &[String]) -> (r: Result<
        WriteStep,
        Error,
    >)
        ensures
            dense(final(self).clients()),
            final(self).router_endpoint() == old(self).router_endpoint(),
            final(self).default_database() == old(self).default_database(),
            match r {
                Err(e) => {
                    &&& e is NoDatabase
                    &&& database_of(text_of(ctx.database), old(self).default_database()) is None
                    &&& final(self).clients() == old(self).clients()
                },
                Ok(WriteStep::Resolve(routing)) => {
                    &&& context_resolved(routing.ctx, *ctx, old(self).default_database())
                    &&& misses(router.cache(), names(distinct(tables@))).len() > 0
                    &&& looked_up(routing.pending, router.cache(), distinct(tables@))
                    &&& final(self).clients() == old(self).clients()
                },
                Ok(WriteStep::Dispatch(plan)) => {
                    &&& context_resolved(plan.ctx, *ctx, old(self).default_database())
                    &&& misses(router.cache(), names(distinct(tables@))).len() == 0
                    &&& planned(
                        plan,
                        plan.ctx,
                        distinct(tables@),
                        cached_endpoints(router.cache(), names(distinct(tables@))),
                        old(self).clients(),
                        final(self).clients(),
                    )
                },
            },
    {
        proof {
            use_type_invariant(&self.standalone_pool);
        }
        let ctx = match resolve_database(ctx, &self.default_database) {
            Ok(ctx) => ctx,
            Err(e) => {
                return Err(e);
            },
        };
        // Get tables' related endpoints(some may not exist).
        let should_routes = distinct_tables(tables);
        match router.route(should_routes.as_slice()) {
            RouteStep::Done(endpoints) => {
                assert(endpoints@.len() == endpoint_views(endpoints@).len());
                Ok(WriteStep::Dispatch(self.standalone_pool.plan(ctx, &should_routes, endpoints)))
            },
            RouteStep::Resolve(pending) => Ok(
                WriteStep::Resolve(WriteRouting { ctx, pending }),
            ),
        }
    }

    /// Goes on with a write once the default endpoint has answered. The
    /// write fails as a whole where asking failed or the response is
    /// refused; else it can go out, split by endpoint.
    pub fn write_routed(
        &mut self,
        router: &mut RouterImpl,
        routing: WriteRouting,
        response: Result<Vec<Route>, Error>,
    ) -> (r: Result<WritePlan, Error>)
        ensures
            dense(final(self).clients()),
            final(self).router_endpoint() == old(self).router_endpoint(),
            final(self).default_database() == old(self).default_database(),
            final(router).default_endpoint() == old(router).default_endpoint(),
            match response {
                Err(failure) => {
                    &&& r matches Err(e)
                    &&& e == failure
                    &&& final(router).cache() == old(router).cache()
                    &&& final(self).clients() == old(self).clients()
                },
                Ok(routes) => match stray_table(routing.pending.asked(), route_views(routes@)) {
                    Some(table) => {
                        &&& r matches Err(Error::Unknown(msg))
                        &&& msg@ == unknown_table_message(table)
                        &&& final(router).cache() == old(router).cache()
                        &&& final(self).clients() == old(self).clients()
                    },
                    None => {
                        &&& final(router).cache() == learned(
                            old(router).cache(),
                            route_views(routes@),
                        )
                        &&& r matches Ok(plan)
                        &&& planned(
                            plan,
                            routing.ctx,
                            routing.pending.tables(),
                            answers(
                                names(routing.pending.tables()),
                                routing.pending.cached(),
                                route_views(routes@),
                                old(router).default_endpoint(),
                            ),
                            old(self).clients(),
                            final(self).clients(),
                        )
                    },
                },
            },
    {
        proof {
            use_type_invariant(&self.standalone_pool);
        }
        let WriteRouting { ctx, pending } = routing;
        let mut should_routes: Vec<String> = Vec::new();
        let looked_up = pending.looked_up();
        let mut i: usize = 0;
        while i < looked_up.len()
            invariant
                i <= looked_up@.len(),
                should_routes@ == looked_up@.take(i as int),
            decreases looked_up@.len() - i,
        {
            should_routes.push(looked_up[i].clone());
            assert(looked_up@.take(i + 1) == looked_up@.take(i as int).push(looked_up@[i as int]));
            i += 1;
        }
        assert(looked_up@.take(i as int) == looked_up@);
        match router.route_resolved(pending, response) {
            Ok(endpoints) => {
                assert(endpoints@.len() == endpoint_views(endpoints@).len());
                Ok(self.standalone_pool.plan(ctx, &should_routes, endpoints))
            },
            Err(e) => Err(e),
        }
    }

    /// Ends a write with the result of each of its partitions, in their
    /// order. The outcomes are merged; the tables without endpoint fail
    /// apart; the routes of each partition that the server refused as out of
    /// date are dropped from the cache.
    pub fn write_finished(
        &self,
        router: &mut RouterImpl,
        plan: WritePlan,
        results: Vec<Result<Response, Error>>,
    ) -> (r: Result<Response, Error>)
        requires
            plan.partitions@.len() == results@.len(),
            rows_succeeded(dispatched(plan.partitions@, results@)) <= u32::MAX,
            rows_failed(dispatched(plan.partitions@, results@)) <= u32::MAX,
        ensures
            final(router).default_endpoint() == old(router).default_endpoint(),
            final(router).cache() == evicted(
                old(router).cache(),
                names(stale_tables(dispatched(plan.partitions@, results@))),
            ),
            write_settled(
                dispatched(plan.partitions@, results@),
                plan.unroutable,
                NO_WRITE_ENDPOINTS@,
                r,
            ),
    {
        settle_write(router, plan.partitions, plan.unroutable, results, NO_WRITE_ENDPOINTS)
    }
}

} // verus!
