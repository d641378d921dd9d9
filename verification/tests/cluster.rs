use std::sync::Arc;

use dashmap::DashMap;
use horaedb_client::db_client::cluster::ClusterImpl;
use horaedb_client::db_client::route_based::{QueryStep, WriteStep};
use horaedb_client::errors::Error;
use horaedb_client::model::request::QueryRequest;
use horaedb_client::model::route::Endpoint;
use horaedb_client::model::write::Response;
use horaedb_client::rpc_client::{MockRpcClient, RpcContext};

fn names(tables: &[&str]) -> Vec<String> {
    tables.iter().map(|t| t.to_string()).collect()
}

#[test]
fn cluster_query_without_metrics_is_refused() {
    let mut client = ClusterImpl::new("10.0.0.9:8831".to_string());
    let router = client.init_router().unwrap();
    let req = QueryRequest { metrics: Vec::new(), ql: "select 1".to_string() };
    let refused = client.query(&router, &RpcContext::default(), &req);
    assert!(matches!(
        refused,
        Err(Error::Unknown(m)) if m == "Metrics in query request can't be empty in cluster mode"
    ));
}

#[test]
fn cluster_write_goes_out_by_endpoint() {
    let route_table = Arc::new(DashMap::default());
    route_table.insert("m1".to_string(), Endpoint::new("10.0.0.1".to_string(), 1));
    let server = MockRpcClient { route_table };
    let mut client = ClusterImpl::new("10.0.0.9:8831".to_string());
    let mut router = client.init_router().unwrap();
    let plan = match client.write(&router, &RpcContext::default(), &names(&["m1", "m2"])) {
        WriteStep::Resolve(routing) => {
            let routes = server.route(routing.pending.request());
            client.write_routed(&mut router, routing, Ok(routes)).unwrap()
        }
        WriteStep::Dispatch(_) => panic!("nothing is cached"),
    };
    assert!(plan.ctx.database.is_none());
    assert_eq!(plan.partitions.len(), 2);
    assert_eq!(plan.partitions[0].tables, names(&["m1"]));
    assert_eq!(plan.partitions[1].endpoint, Endpoint::new("10.0.0.9".to_string(), 8831));
    let done = client
        .write_finished(&mut router, plan, vec![Ok(Response::new(1, 0)), Ok(Response::new(2, 0))])
        .unwrap();
    assert_eq!(done.success, 3);

    let req = QueryRequest { metrics: names(&["m1"]), ql: "select 1".to_string() };
    match client.query(&router, &RpcContext::default(), &req).unwrap() {
        QueryStep::Send(target) => {
            assert_eq!(target.endpoint, Endpoint::new("10.0.0.1".to_string(), 1));
            assert!(!target.client.created);
        }
        QueryStep::Resolve(_) => panic!("the metric is cached"),
    }
}

#[test]
fn cluster_query_is_routed_and_ends() {
    let route_table = Arc::new(DashMap::default());
    route_table.insert("m1".to_string(), Endpoint::new("10.0.0.1".to_string(), 1));
    let server = MockRpcClient { route_table };
    let mut client = ClusterImpl::new("10.0.0.9:8831".to_string());
    let mut router = client.init_router().unwrap();
    let req = QueryRequest { metrics: names(&["m1", "m2"]), ql: "select 1".to_string() };
    assert!(client.check_query(&req).is_ok());
    let empty = QueryRequest { metrics: Vec::new(), ql: "select 1".to_string() };
    assert!(matches!(client.check_query(&empty), Err(Error::Unknown(_))));

    let routing = match client.query(&router, &RpcContext::default(), &req).unwrap() {
        QueryStep::Resolve(routing) => routing,
        QueryStep::Send(_) => panic!("nothing is cached"),
    };
    let routes = server.route(routing.pending.request());
    let target = client.query_routed(&mut router, routing, Ok(routes)).unwrap();
    assert_eq!(target.endpoint, Endpoint::new("10.0.0.1".to_string(), 1));
    assert!(target.client.created);

    // A failure drops the routes of all metrics of the query.
    let failed: Result<u32, Error> =
        client.query_finished(&mut router, &req, Err(Error::Client("down".to_string())));
    assert!(failed.is_err());
    assert!(matches!(
        client.query(&router, &RpcContext::default(), &req).unwrap(),
        QueryStep::Resolve(_)
    ));
    let fine: Result<u32, Error> = client.query_finished(&mut router, &req, Ok(1));
    assert!(matches!(fine, Ok(1)));

    // Where asking for routes fails, so does the query.
    let routing = match client.query(&router, &RpcContext::default(), &req).unwrap() {
        QueryStep::Resolve(routing) => routing,
        QueryStep::Send(_) => panic!("nothing is cached"),
    };
    let failed = client.query_routed(&mut router, routing, Err(Error::Client("down".to_string())));
    assert!(matches!(failed, Err(Error::Client(m)) if m == "down"));
}
