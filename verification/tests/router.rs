use std::sync::Arc;

use dashmap::DashMap;
use horaedb_client::errors::Error;
use horaedb_client::model::route::{Endpoint, Route};
use horaedb_client::router::{RouteStep, RouterImpl};
use horaedb_client::rpc_client::MockRpcClient;

/// Routes the tables as a caller does: asks the mocked server where the
/// router says so, and counts how often.
fn route_with(
    router: &mut RouterImpl,
    server: &MockRpcClient,
    tables: &[String],
    calls: &mut usize,
) -> Result<Vec<Option<Endpoint>>, Error> {
    match router.route(tables) {
        RouteStep::Done(endpoints) => Ok(endpoints),
        RouteStep::Resolve(pending) => {
            *calls += 1;
            let routes = server.route(pending.request());
            router.route_resolved(pending, Ok(routes))
        }
    }
}

fn names(tables: &[&str]) -> Vec<String> {
    tables.iter().map(|t| t.to_string()).collect()
}

#[test]
fn router_test_basic_flow() {
    // Init mock route table
    let metric1 = "metric1".to_string();
    let metric2 = "metric2".to_string();
    let metric3 = "metric3".to_string();
    let metric4 = "metric4".to_string();
    let endpoint1 = Endpoint::new("192.168.0.1".to_string(), 11);
    let endpoint2 = Endpoint::new("192.168.0.2".to_string(), 12);
    let endpoint3 = Endpoint::new("192.168.0.3".to_string(), 13);
    let endpoint4 = Endpoint::new("192.168.0.4".to_string(), 14);
    let default_endpoint = Endpoint::new("192.168.0.5".to_string(), 15);

    // Init mock client with route1 and route2
    let route_table = Arc::new(DashMap::default());
    let mock_rpc_client = MockRpcClient { route_table: route_table.clone() };
    mock_rpc_client.route_table.insert(metric1.clone(), endpoint1.clone());
    mock_rpc_client.route_table.insert(metric2.clone(), endpoint2.clone());

    // Follow these steps to check wether cache is used or not:
    // route --> change route_table --> route again.
    let mut calls = 0;
    let metrics = vec![metric1.clone(), metric2.clone()];
    let mut route_client = RouterImpl::new(default_endpoint.clone());
    let route_res1 = route_with(&mut route_client, &mock_rpc_client, &metrics, &mut calls).unwrap();
    assert_eq!(&endpoint1, route_res1.get(0).unwrap().as_ref().unwrap());
    assert_eq!(&endpoint2, route_res1.get(1).unwrap().as_ref().unwrap());

    route_table.insert(metric1.clone(), endpoint3.clone());
    route_table.insert(metric2.clone(), endpoint4.clone());

    let route_res2 = route_with(&mut route_client, &mock_rpc_client, &metrics, &mut calls).unwrap();
    assert_eq!(&endpoint1, route_res2.get(0).unwrap().as_ref().unwrap());
    assert_eq!(&endpoint2, route_res2.get(1).unwrap().as_ref().unwrap());

    route_client.evict(&[metric1.clone(), metric2.clone()]);

    let route_res3 = route_with(&mut route_client, &mock_rpc_client, &metrics, &mut calls).unwrap();
    assert_eq!(&endpoint3, route_res3.get(0).unwrap().as_ref().unwrap());
    assert_eq!(&endpoint4, route_res3.get(1).unwrap().as_ref().unwrap());

    let route_res4 =
        route_with(&mut route_client, &mock_rpc_client, &[metric3, metric4], &mut calls).unwrap();
    assert_eq!(&default_endpoint, route_res4.get(0).unwrap().as_ref().unwrap());
    assert_eq!(&default_endpoint, route_res4.get(1).unwrap().as_ref().unwrap());
}

fn server_with(routes: &[(&str, &str, u32)]) -> MockRpcClient {
    let route_table = Arc::new(DashMap::default());
    for (table, addr, port) in routes {
        route_table.insert(table.to_string(), Endpoint::new(addr.to_string(), *port));
    }
    MockRpcClient { route_table }
}

#[test]
fn cache_hit_avoids_network() {
    let server = server_with(&[("t", "10.0.0.1", 1)]);
    let mut router = RouterImpl::new(Endpoint::new("10.0.0.9".to_string(), 9));
    let mut calls = 0;
    let first = route_with(&mut router, &server, &names(&["t"]), &mut calls).unwrap();
    assert_eq!(calls, 1);
    let second = route_with(&mut router, &server, &names(&["t"]), &mut calls).unwrap();
    assert_eq!(calls, 1);
    assert_eq!(first, second);
    assert_eq!(second, vec![Some(Endpoint::new("10.0.0.1".to_string(), 1))]);
}

#[test]
fn eviction_forces_refresh() {
    let server = server_with(&[("t", "10.0.0.1", 1)]);
    let mut router = RouterImpl::new(Endpoint::new("10.0.0.9".to_string(), 9));
    let mut calls = 0;
    route_with(&mut router, &server, &names(&["t"]), &mut calls).unwrap();
    assert_eq!(calls, 1);
    router.evict(&names(&["t"]));
    match router.route(&names(&["t"])) {
        RouteStep::Resolve(pending) => assert_eq!(pending.request(), &names(&["t"])),
        RouteStep::Done(_) => panic!("an evicted table is asked for"),
    }
    route_with(&mut router, &server, &names(&["t"]), &mut calls).unwrap();
    assert_eq!(calls, 2);
    route_with(&mut router, &server, &names(&["t"]), &mut calls).unwrap();
    assert_eq!(calls, 2);
}

#[test]
fn evicting_what_is_not_cached_changes_nothing() {
    let server = server_with(&[("t", "10.0.0.1", 1)]);
    let mut router = RouterImpl::new(Endpoint::new("10.0.0.9".to_string(), 9));
    let mut calls = 0;
    route_with(&mut router, &server, &names(&["t"]), &mut calls).unwrap();
    router.evict(&names(&["u", "v"]));
    router.evict(&[]);
    route_with(&mut router, &server, &names(&["t"]), &mut calls).unwrap();
    assert_eq!(calls, 1);
}

#[test]
fn misses_are_asked_for_once_and_at_once() {
    let server = server_with(&[("a", "10.0.0.1", 1), ("b", "10.0.0.2", 2)]);
    let mut router = RouterImpl::new(Endpoint::new("10.0.0.9".to_string(), 9));
    let mut calls = 0;
    route_with(&mut router, &server, &names(&["a"]), &mut calls).unwrap();
    match router.route(&names(&["c", "a", "b", "c", "b"])) {
        RouteStep::Resolve(pending) => {
            assert_eq!(pending.request(), &names(&["c", "b"]));
            let routes = server.route(pending.request());
            let endpoints = router.route_resolved(pending, Ok(routes)).unwrap();
            let default_endpoint = Endpoint::new("10.0.0.9".to_string(), 9);
            let a = Endpoint::new("10.0.0.1".to_string(), 1);
            let b = Endpoint::new("10.0.0.2".to_string(), 2);
            assert_eq!(
                endpoints,
                vec![
                    Some(default_endpoint.clone()),
                    Some(a),
                    Some(b.clone()),
                    Some(default_endpoint),
                    Some(b)
                ]
            );
        }
        RouteStep::Done(_) => panic!("two tables are not cached"),
    }
    // What the server did not name is not cached.
    match router.route(&names(&["a", "b", "c"])) {
        RouteStep::Resolve(pending) => assert_eq!(pending.request(), &names(&["c"])),
        RouteStep::Done(_) => panic!("one table is not cached"),
    }
}

#[test]
fn no_tables_need_no_call() {
    let router = RouterImpl::new(Endpoint::new("10.0.0.9".to_string(), 9));
    match router.route(&[]) {
        RouteStep::Done(endpoints) => assert!(endpoints.is_empty()),
        RouteStep::Resolve(_) => panic!("nothing to ask for"),
    }
}

#[test]
fn failed_call_fails_the_lookup_and_leaves_the_cache() {
    let server = server_with(&[("a", "10.0.0.1", 1)]);
    let mut router = RouterImpl::new(Endpoint::new("10.0.0.9".to_string(), 9));
    let pending = match router.route(&names(&["a"])) {
        RouteStep::Resolve(pending) => pending,
        RouteStep::Done(_) => panic!("nothing is cached"),
    };
    let failed = router.route_resolved(pending, Err(Error::Client("down".to_string())));
    assert!(matches!(failed, Err(Error::Client(m)) if m == "down"));
    let mut calls = 0;
    route_with(&mut router, &server, &names(&["a"]), &mut calls).unwrap();
    assert_eq!(calls, 1);
}

#[test]
fn response_for_a_table_not_asked_for_is_refused() {
    let mut router = RouterImpl::new(Endpoint::new("10.0.0.9".to_string(), 9));
    let pending = match router.route(&names(&["a"])) {
        RouteStep::Resolve(pending) => pending,
        RouteStep::Done(_) => panic!("nothing is cached"),
    };
    let routes = vec![
        Route { table: "a".to_string(), endpoint: Some(Endpoint::new("10.0.0.1".to_string(), 1)) },
        Route { table: "x".to_string(), endpoint: None },
        Route { table: "b".to_string(), endpoint: Some(Endpoint::new("10.0.0.2".to_string(), 2)) },
    ];
    let refused = router.route_resolved(pending, Ok(routes));
    assert!(matches!(refused, Err(Error::Unknown(m)) if m == "Unknown table:b in response"));
    // The cache has learned nothing, not even the route that came first.
    assert!(matches!(router.route(&names(&["a"])), RouteStep::Resolve(_)));
}

#[test]
fn last_route_of_a_table_counts() {
    let mut router = RouterImpl::new(Endpoint::new("10.0.0.9".to_string(), 9));
    let pending = match router.route(&names(&["a"])) {
        RouteStep::Resolve(pending) => pending,
        RouteStep::Done(_) => panic!("nothing is cached"),
    };
    let routes = vec![
        Route { table: "a".to_string(), endpoint: Some(Endpoint::new("10.0.0.1".to_string(), 1)) },
        Route { table: "a".to_string(), endpoint: Some(Endpoint::new("10.0.0.2".to_string(), 2)) },
        Route { table: "a".to_string(), endpoint: None },
    ];
    let second = Endpoint::new("10.0.0.2".to_string(), 2);
    assert_eq!(router.route_resolved(pending, Ok(routes)).unwrap(), vec![Some(second.clone())]);
    match router.route(&names(&["a"])) {
        RouteStep::Done(endpoints) => assert_eq!(endpoints, vec![Some(second)]),
        RouteStep::Resolve(_) => panic!("the table is cached"),
    }
}

#[test]
fn racing_lookups_converge() {
    let server = server_with(&[("t", "10.0.0.1", 1)]);
    let mut router = RouterImpl::new(Endpoint::new("10.0.0.9".to_string(), 9));
    // Four lookups start before any of them is completed.
    let mut waiting = Vec::new();
    for _ in 0..4 {
        match router.route(&names(&["t"])) {
            RouteStep::Resolve(pending) => waiting.push(pending),
            RouteStep::Done(_) => panic!("nothing is cached yet"),
        }
    }
    let mut calls = 0;
    let expected = vec![Some(Endpoint::new("10.0.0.1".to_string(), 1))];
    while let Some(pending) = waiting.pop() {
        calls += 1;
        let routes = server.route(pending.request());
        assert_eq!(router.route_resolved(pending, Ok(routes)).unwrap(), expected);
    }
    assert_eq!(calls, 4);
    match router.route(&names(&["t"])) {
        RouteStep::Done(endpoints) => assert_eq!(endpoints, expected),
        RouteStep::Resolve(_) => panic!("the table is cached"),
    }
}

#[test]
fn mock_server_answers_for_what_it_knows() {
    let server = server_with(&[("a", "10.0.0.1", 1), ("b", "10.0.0.2", 2)]);
    let routes = server.route(&names(&["c", "b", "a", "b"]));
    let got: Vec<(String, Option<Endpoint>)> =
        routes.into_iter().map(|r| (r.table, r.endpoint)).collect();
    let a = Endpoint::new("10.0.0.1".to_string(), 1);
    let b = Endpoint::new("10.0.0.2".to_string(), 2);
    assert_eq!(
        got,
        vec![
            ("b".to_string(), Some(b.clone())),
            ("a".to_string(), Some(a)),
            ("b".to_string(), Some(b))
        ]
    );
}
