//! Rpc client used for testing.

use vstd::prelude::*;
use dashmap::DashMap;
use std::sync::Arc;
use crate::cache::{route_cache_contents, route_cache_get};
use crate::model::route::{names, route_views, Endpoint, EndpointView, Route, RouteView};

verus! {

/// What a server with the given route table answers when asked for the
/// tables: a route for each table that it knows, in the order of the
/// tables.
pub open spec fn known_routes(
    route_table: Map<Seq<char>, EndpointView>,
    tables: Seq<Seq<char>>,
) -> Seq<RouteView>
    decreases tables.len(),
{
    if tables.len() == 0 {
        Seq::empty()
    } else {
        let before = known_routes(route_table, tables.drop_last());
        if route_table.contains_key(tables.last()) {
            before.push(
                RouteView { table: tables.last(), endpoint: Some(route_table[tables.last()]) },
            )
        } else {
            before
        }
    }
}

/// Rpc client used for testing.
pub struct MockRpcClient {
    pub route_table: Arc<DashMap<String, Endpoint>>,
}

impl MockRpcClient {
    /// The routes that the mocked server knows.
    pub open spec fn known(&self) -> Map<Seq<char>, EndpointView> {
        route_cache_contents(*self.route_table)
    }

    /// The routes of the tables that the route table holds.
    pub fn route(&self, tables: &Vec<String>) -> (routes: Vec<Route>)
        ensures
            route_views(routes@) == known_routes(self.known(), names(tables@)),
    {
        let ghost all = names(tables@);
        let ghost known = self.known();
        let mut routes: Vec<Route> = Vec::new();
        let mut i: usize = 0;
        while i < tables.len()
            invariant
                i <= tables@.len(),
                all == names(tables@),
                known == self.known(),
                route_views(routes@) == known_routes(known, all.take(i as int)),
            decreases tables@.len() - i,
        {
            proof {
                assert(all.take(i + 1).drop_last() == all.take(i as int));
                assert(all.take(i + 1).last() == tables@[i as int]@);
            }
            let ghost before = route_views(routes@);
            match route_cache_get(&self.route_table, &tables[i]) {
                Some(endpoint) => {
                    routes.push(Route { table: tables[i].clone(), endpoint: Some(endpoint) });
                    assert(route_views(routes@) == before.push(routes@[routes@.len() - 1]@));
                },
                None => {},
            }
            i += 1;
        }
        assert(all.take(i as int) == all);
        routes
    }
}

} // verus!
