//! Client for cluster mode

use vstd::prelude::*;
use crate::cache::{no_clients, no_routes};
use crate::db_client::outcome::{dispatched, settle_write, stale_tables, write_settled};
use crate::db_client::partition::{distinct, distinct_tables};
use crate::db_client::pool::{dense, DirectClientPool};
use crate::db_client::route_based::{
    bad_router_endpoint, looked_up, planned, query_endpoint, targeted, QueryRouting, QueryStep,
    QueryTarget, WritePlan, WriteRouting, WriteStep,
};
use crate::errors::{rows_failed, rows_succeeded, Error};
use crate::model::request::QueryRequest;
use crate::model::route::{names, parse_endpoint, route_views, Endpoint, EndpointView, Route};
use crate::model::write::Response;
use crate::router::{
    answers, cached_endpoints, evicted, learned, misses, stray_table, unknown_table_message,
    RouteStep, RouterImpl,
};
use crate::rpc_client::{text_of, RpcContext};

verus! {

/// The text of the error for a query that names no metric.
pub const EMPTY_METRICS: &'static str = "Metrics in query request can't be empty in cluster mode";

/// The text of the error for a query whose first metric no endpoint serves.
pub const NO_METRIC_ENDPOINT: &'static str = "Metric doesn't have corresponding endpoint";

/// The text of the error for the metrics of a write that no endpoint
/// serves.
pub const NO_METRIC_ENDPOINTS: &'static str = "Metrics don't have corresponding endpoints";

/// Client implementation for ceresdb while using cluster mode.
///
/// It works as the client of route based mode does, save that a call goes
/// out with the context of the caller as it is.
pub struct ClusterImpl {
    router_endpoint: String,
    standalone_pool: DirectClientPool,
}

impl ClusterImpl {
    /// The endpoint that is asked for routes, as it was given.
    pub closed spec fn router_endpoint(&self) -> Seq<char> {
        self.router_endpoint@
    }

    /// The slot of each endpoint that has a client.
    pub closed spec fn clients(&self) -> Map<EndpointView, usize> {
        self.standalone_pool.slots()
    }

    pub fn new(router_endpoint: String) -> (r: Self)
        ensures
            r.router_endpoint() == router_endpoint@,
            r.clients() == no_clients(),
    {
        Self { router_endpoint, standalone_pool: DirectClientPool::new() }
    }

    /// The router of this client: its cache is empty and its default
    /// endpoint is the router endpoint that the client was made with.
    pub fn init_router(&self) -> (r: Result<RouterImpl, Error>)
        ensures
            match r {
                Ok(router) => {
                    &&& parse_endpoint(self.router_endpoint()) == Ok::<EndpointView, Seq<char>>(
                        router.default_endpoint(),
                    )
                    &&& router.cache() == no_routes()
                },
                Err(e) => {
                    &&& parse_endpoint(self.router_endpoint()) matches Err(why)
                    &&& e matches Error::Client(msg)
                    &&& msg@ == bad_router_endpoint(self.router_endpoint(), why)
                },
            },
    {
        match Endpoint::parse(self.router_endpoint.as_str()) {
            Ok(default_endpoint) => Ok(RouterImpl::new(default_endpoint)),
            Err(why) => {
                let mut msg = String::from_str("Failed to parse default endpoint:");
                msg.append(self.router_endpoint.as_str());
                msg.append(", err:");
                msg.append(why.as_str());
                Err(Error::Client(msg))
            },
        }
    }

    /// The endpoint that is asked for routes, as it was given.
    pub fn router_address(&self) -> (r: &String)
        ensures
            r@ == self.router_endpoint(),
    {
        &self.router_endpoint
    }

    /// Refuses a query that names no metric: no router and no server is
    /// needed to tell.
    pub fn check_query(&self, req: &QueryRequest) -> (r: Result<(), Error>)
        ensures
            match r {
                Ok(_) => req.metrics@.len() > 0,
                Err(e) => {
                    &&& req.metrics@.len() == 0
                    &&& e matches Error::Unknown(msg)
                    &&& msg@ == EMPTY_METRICS@
                },
            },
    {
        if req.metrics.is_empty() {
            return Err(Error::Unknown(String::from_str(EMPTY_METRICS)));
        }
        Ok(())
    }

    /// Starts a query. One that names no metric is refused at once.
    /// Otherwise the metrics are looked up: where all are cached the query
    /// can go out to the endpoint of its first metric, else the default
    /// endpoint has to be asked first.
    pub fn query(&mut self, router: &RouterImpl, ctx: &RpcContext, req: &QueryRequest) -> (r: Result<
        QueryStep,
        Error,
    >)
        ensures
            dense(final(self).clients()),
            final(self).router_endpoint() == old(self).router_endpoint(),
            match r {
                Err(e) => {
                    &&& req.metrics@.len() == 0
                    &&& e matches Error::Unknown(msg)
                    &&& msg@ == EMPTY_METRICS@
                    &&& final(self).clients() == old(self).clients()
                },
                Ok(QueryStep::Resolve(routing)) => {
                    &&& req.metrics@.len() > 0
                    &&& text_of(routing.ctx.database) == text_of(ctx.database)
                    &&& routing.ctx.timeout == ctx.timeout
                    &&& misses(router.cache(), names(req.metrics@)).len() > 0
                    &&& looked_up(routing.pending, router.cache(), req.metrics@)
                    &&& final(self).clients() == old(self).clients()
                },
                Ok(QueryStep::Send(target)) => {
                    &&& req.metrics@.len() > 0
                    &&& misses(router.cache(), names(req.metrics@)).len() == 0
                    &&& targeted(
                        target,
                        *ctx,
                        cached_endpoints(router.cache(), names(req.metrics@)),
                        old(self).clients(),
                        final(self).clients(),
                    )
                },
            },
    {
        proof {
            use_type_invariant(&self.standalone_pool);
        }
        if req.metrics.is_empty() {
            return Err(Error::Unknown(String::from_str(EMPTY_METRICS)));
        }
        match router.route(req.metrics.as_slice()) {
            RouteStep::Done(endpoints) => {
                proof {
                    crate::router::lemma_misses_are_uncached(router.cache(), names(req.metrics@));
                    assert(router.cache().contains_key(names(req.metrics@)[0]));
                }
                match self.standalone_pool.target(ctx.clone(), endpoints, NO_METRIC_ENDPOINT) {
                    Ok(target) => Ok(QueryStep::Send(target)),
                    Err(e) => Err(e),
                }
            },
            RouteStep::Resolve(pending) => Ok(
                QueryStep::Resolve(QueryRouting { ctx: ctx.clone(), pending }),
            ),
        }
    }

    /// Goes on with a query once the default endpoint has answered. The
    /// query fails where asking failed or the response is refused; else it
    /// can go out to the endpoint of its first metric.
    pub fn query_routed(
        &mut self,
        router: &mut RouterImpl,
        routing: QueryRouting,
        response: Result<Vec<Route>, Error>,
    ) -> (r: Result<QueryTarget, Error>)
        ensures
            dense(final(self).clients()),
            final(self).router_endpoint() == old(self).router_endpoint(),
            final(router).default_endpoint() == old(router).default_endpoint(),
            match response {
                Err(failure) => {
                    &&& r matches Err(e)
                    &&& e == failure
                    &&& final(router).cache() == old(router).cache()
                    &&& final(self).clients() == old(self).clients()
                },
                Ok(routes) => match stray_table(routing.pending.asked(), route_views(routes@)) {
                    Some(table) => {
                        &&& r matches Err(Error::Unknown(msg))
                        &&& msg@ == unknown_table_message(table)
                        &&& final(router).cache() == old(router).cache()
                        &&& final(self).clients() == old(self).clients()
                    },
                    None => {
                        let endpoints = answers(
                            names(routing.pending.tables()),
                            routing.pending.cached(),
                            route_views(routes@),
                            old(router).default_endpoint(),
                        );
                        &&& final(router).cache() == learned(
                            old(router).cache(),
                            route_views(routes@),
                        )
                        &&& match r {
                            Ok(target) => targeted(
                                target,
                                routing.ctx,
                                endpoints,
                                old(self).clients(),
                                final(self).clients(),
                            ),
                            Err(e) => {
                                &&& query_endpoint(endpoints) is None
                                &&& e matches Error::Unknown(msg)
                                &&& msg@ == NO_METRIC_ENDPOINT@
                                &&& final(self).clients() == old(self).clients()
                            },
                        }
                    },
                },
            },
    {
        proof {
            use_type_invariant(&self.standalone_pool);
        }
        let QueryRouting { ctx, pending } = routing;
        match router.route_resolved(pending, response) {
            Ok(endpoints) => self.standalone_pool.target(ctx, endpoints, NO_METRIC_ENDPOINT),
            Err(e) => Err(e),
        }
    }

    /// Ends a query. After any failure the routes of all its metrics are
    /// dropped from the cache; the result is handed on as it is.
    pub fn query_finished<R>(
        &self,
        router: &mut RouterImpl,
        req: &QueryRequest,
        result: Result<R, Error>,
    ) -> (r: Result<R, Error>)
        ensures
            r == result,
            final(router).default_endpoint() == old(router).default_endpoint(),
            result is Ok ==> final(router).cache() == old(router).cache(),
            result is Err ==> final(router).cache() == evicted(
                old(router).cache(),
                names(req.metrics@),
            ),
    {
        if result.is_err() {
            router.evict(req.metrics.as_slice());
        }
        result
    }

    /// Starts a write over the given metrics. The metrics, each once, are
    /// looked up: where all are cached the write can go out, split by
    /// endpoint, else the default endpoint has to be asked first.
    pub fn write(&mut self, router: &RouterImpl, ctx: &RpcContext, metrics: &[String]) -> (r:
        WriteStep)
        ensures
            dense(final(self).clients()),
            final(self).router_endpoint() == old(self).router_endpoint(),
            match r {
                WriteStep::Resolve(routing) => {
                    &&& text_of(routing.ctx.database) == text_of(ctx.database)
                    &&& routing.ctx.timeout == ctx.timeout
                    &&& misses(router.cache(), names(distinct(metrics@))).len() > 0
                    &&& looked_up(routing.pending, router.cache(), distinct(metrics@))
                    &&& final(self).clients() == old(self).clients()
                },
                WriteStep::Dispatch(plan) => {
                    &&& misses(router.cache(), names(distinct(metrics@))).len() == 0
                    &&& planned(
                        plan,
                        *ctx,
                        distinct(metrics@),
                        cached_endpoints(router.cache(), names(distinct(metrics@))),
                        old(self).clients(),
                        final(self).clients(),
                    )
                },
            },
    {
        proof {
            use_type_invariant(&self.standalone_pool);
        }
        // Get metrics' related endpoints(some may not exist).
        let should_routes = distinct_tables(metrics);
        match router.route(should_routes.as_slice()) {
            RouteStep::Done(endpoints) => {
                assert(endpoints@.len() == cached_endpoints(
                    router.cache(),
                    names(distinct(metrics@)),
                ).len());
                WriteStep::Dispatch(
                    self.standalone_pool.plan(ctx.clone(), &should_routes, endpoints),
                )
            },
            RouteStep::Resolve(pending) => WriteStep::Resolve(
                WriteRouting { ctx: ctx.clone(), pending },
            ),
        }
    }

    /// Goes on with a write once the default endpoint has answered. The
    /// write fails as a whole where asking failed or the response is
    /// refused; else it can go out, split by endpoint.
    pub fn write_routed(
        &mut self,
        router: &mut RouterImpl,
        routing: WriteRouting,
        response: Result<Vec<Route>, Error>,
    ) -> (r: Result<WritePlan, Error>)
        ensures
            dense(final(self).clients()),
            final(self).router_endpoint() == old(self).router_endpoint(),
            final(router).default_endpoint() == old(router).default_endpoint(),
            match response {
                Err(failure) => {
                    &&& r matches Err(e)
                    &&& e == failure
                    &&& final(router).cache() == old(router).cache()
                    &&& final(self).clients() == old(self).clients()
                },
                Ok(routes) => match stray_table(routing.pending.asked(), route_views(routes@)) {
                    Some(table) => {
                        &&& r matches Err(Error::Unknown(msg))
                        &&& msg@ == unknown_table_message(table)
                        &&& final(router).cache() == old(router).cache()
                        &&& final(self).clients() == old(self).clients()
                    },
                    None => {
                        &&& final(router).cache() == learned(
                            old(router).cache(),
                            route_views(routes@),
                        )
                        &&& r matches Ok(plan)
                        &&& planned(
                            plan,
                            routing.ctx,
                            routing.pending.tables(),
                            answers(
                                names(routing.pending.tables()),
                                routing.pending.cached(),
                                route_views(routes@),
                                old(router).default_endpoint(),
                            ),
                            old(self).clients(),
                            final(self).clients(),
                        )
                    },
                },
            },
    {
        proof {
            use_type_invariant(&self.standalone_pool);
        }
        let WriteRouting { ctx, pending } = routing;
        let should_routes = pending.looked_up().clone();
        match router.route_resolved(pending, response) {
            Ok(endpoints) => {
                assert(endpoints@.len() == answers(
                    names(routing.pending.tables()),
                    routing.pending.cached(),
                    route_views(response->Ok_0@),
                    old(router).default_endpoint(),
                ).len());
                Ok(self.standalone_pool.plan(ctx, &should_routes, endpoints))
            },
            Err(e) => Err(e),
        }
    }

    /// Ends a write with the result of each of its partitions, in their
    /// order. The outcomes are merged; the metrics without endpoint fail
    /// apart; the routes of each partition that the server refused as out of
    /// date are dropped from the cache.
    pub fn write_finished(
        &self,
        router: &mut RouterImpl,
        plan: WritePlan,
        results: Vec<Result<Response, Error>>,
    ) -> (r: Result<Response, Error>)
        requires
            plan.partitions@.len() == results@.len(),
            rows_succeeded(dispatched(plan.partitions@, results@)) <= u32::MAX,
            rows_failed(dispatched(plan.partitions@, results@)) <= u32::MAX,
        ensures
            final(router).default_endpoint() == old(router).default_endpoint(),
            final(router).cache() == evicted(
                old(router).cache(),
                names(stale_tables(dispatched(plan.partitions@, results@))),
            ),
            write_settled(
                dispatched(plan.partitions@, results@),
                plan.unroutable,
                NO_METRIC_ENDPOINTS@,
                r,
            ),
    {
        settle_write(router, plan.partitions, plan.unroutable, results, NO_METRIC_ENDPOINTS)
    }
}

} // verus!
