use std::sync::Arc;

use dashmap::DashMap;
use horaedb_client::errors::Error;
use horaedb_client::model::route::{Endpoint, Route};
use horaedb_client::route_client::{RouteClientImpl, RouteClientStep};
use horaedb_client::rpc_client::MockRpcClient;

fn route_with(
    client: &mut RouteClientImpl,
    server: &MockRpcClient,
    metrics: Vec<String>,
    force_refresh: bool,
) -> Result<Vec<Route>, Error> {
    match client.route(metrics, force_refresh)? {
        RouteClientStep::Done(routes) => Ok(routes),
        RouteClientStep::Resolve(pending) => {
            let routes = server.route(pending.request());
            client.route_resolved(pending, Ok(routes))
        }
    }
}

#[test]
fn route_client_test_basic_flow() {
    // Init mock route table
    let metric1 = "metric1".to_string();
    let metric2 = "metric2".to_string();
    let endpoint1 = Endpoint::new("192.168.0.1".to_string(), 11);
    let endpoint2 = Endpoint::new("192.168.0.2".to_string(), 12);
    let endpoint3 = Endpoint::new("192.168.0.3".to_string(), 13);
    let endpoint4 = Endpoint::new("192.168.0.4".to_string(), 14);

    // Init mock client with route1 and route2
    let route_table = Arc::new(DashMap::default());
    let mock_rpc_client = MockRpcClient { route_table: route_table.clone() };
    mock_rpc_client.route_table.insert(metric1.clone(), endpoint1.clone());
    mock_rpc_client.route_table.insert(metric2.clone(), endpoint2.clone());

    // Follow these steps to check wether cache is used or not:
    // route --> change route_table --> route again.
    let metrics = vec![metric1.clone(), metric2.clone()];
    let mut route_client = RouteClientImpl::new();
    let route_res1 = route_with(&mut route_client, &mock_rpc_client, metrics.clone(), false).unwrap();
    assert_eq!(&metric1, route_res1.get(0).unwrap().table.as_str());
    assert_eq!(&metric2, route_res1.get(1).unwrap().table.as_str());
    assert_eq!(&endpoint1, route_res1.get(0).unwrap().endpoint.as_ref().unwrap());
    assert_eq!(&endpoint2, route_res1.get(1).unwrap().endpoint.as_ref().unwrap());

    route_table.insert(metric1.clone(), endpoint3.clone());
    route_table.insert(metric2.clone(), endpoint4.clone());

    let route_res2 = route_with(&mut route_client, &mock_rpc_client, metrics.clone(), false).unwrap();
    assert_eq!(&metric1, route_res2.get(0).unwrap().table.as_str());
    assert_eq!(&metric2, route_res2.get(1).unwrap().table.as_str());
    assert_eq!(&endpoint1, route_res2.get(0).unwrap().endpoint.as_ref().unwrap());
    assert_eq!(&endpoint2, route_res2.get(1).unwrap().endpoint.as_ref().unwrap());

    let route_res3 = route_with(&mut route_client, &mock_rpc_client, metrics.clone(), true).unwrap();
    assert_eq!(&metric1, route_res3.get(0).unwrap().table.as_str());
    assert_eq!(&metric2, route_res3.get(1).unwrap().table.as_str());
    assert_eq!(&endpoint3, route_res3.get(0).unwrap().endpoint.as_ref().unwrap());
    assert_eq!(&endpoint4, route_res3.get(1).unwrap().endpoint.as_ref().unwrap());

    // The cache keeps the routes that it took first.
    let route_res4 = route_with(&mut route_client, &mock_rpc_client, metrics, false).unwrap();
    assert_eq!(&endpoint1, route_res4.get(0).unwrap().endpoint.as_ref().unwrap());
    assert_eq!(&endpoint2, route_res4.get(1).unwrap().endpoint.as_ref().unwrap());
}

#[test]
fn route_client_refuses_a_repeated_miss() {
    let client = RouteClientImpl::new();
    let metrics = vec!["a".to_string(), "b".to_string(), "a".to_string()];
    let refused = client.route(metrics, false);
    assert!(matches!(refused, Err(Error::Unknown(m)) if m == "Route duplicated metric:a"));
}

#[test]
fn route_client_fills_the_last_place_when_forced() {
    let server = MockRpcClient { route_table: Arc::new(DashMap::default()) };
    server.route_table.insert("a".to_string(), Endpoint::new("h".to_string(), 1));
    let mut client = RouteClientImpl::new();
    let metrics = vec!["a".to_string(), "b".to_string(), "a".to_string()];
    let routes = route_with(&mut client, &server, metrics, true).unwrap();
    assert_eq!(routes.len(), 3);
    assert_eq!(routes[0].table, "");
    assert!(routes[0].endpoint.is_none());
    assert_eq!(routes[1].table, "");
    assert_eq!(routes[2].table, "a");
    assert_eq!(routes[2].endpoint, Some(Endpoint::new("h".to_string(), 1)));
}

#[test]
fn route_client_refuses_a_metric_unasked() {
    let mut client = RouteClientImpl::new();
    let pending = match client.route(vec!["a".to_string()], false).unwrap() {
        RouteClientStep::Resolve(pending) => pending,
        RouteClientStep::Done(_) => panic!("nothing is cached"),
    };
    assert_eq!(pending.request(), &vec!["a".to_string()]);
    let routes = vec![
        Route { table: "a".to_string(), endpoint: None },
        Route { table: "b".to_string(), endpoint: None },
    ];
    let refused = client.route_resolved(pending, Ok(routes));
    assert!(matches!(refused, Err(Error::Unknown(m)) if m == "Unknown metric:b in response"));
    assert!(matches!(
        client.route(vec!["a".to_string()], false).unwrap(),
        RouteClientStep::Resolve(_)
    ));
}

#[test]
fn route_client_without_metrics_asks_nothing() {
    let client = RouteClientImpl::new();
    assert!(matches!(
        client.route(Vec::new(), true).unwrap(),
        RouteClientStep::Done(routes) if routes.is_empty()
    ));
}
