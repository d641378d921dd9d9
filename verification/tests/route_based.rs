use std::sync::Arc;

use dashmap::DashMap;
use horaedb_client::db_client::partition::{
    distinct_tables, partition_by_endpoint, split_request,
};
use horaedb_client::db_client::pool::DirectClientPool;
use horaedb_client::db_client::route_based::{
    first_endpoint, QueryStep, RouteBasedImpl, WritePlan, WriteStep,
};
use horaedb_client::errors::{Error, ServerError};
use horaedb_client::model::route::{Endpoint, Route};
use horaedb_client::model::sql_query::Request as SqlQueryRequest;
use horaedb_client::model::write::Response;
use horaedb_client::router::{RouteStep, RouterImpl};
use horaedb_client::rpc_client::{MockRpcClient, RpcContext};

fn names(tables: &[&str]) -> Vec<String> {
    tables.iter().map(|t| t.to_string()).collect()
}

fn endpoint(n: u32) -> Endpoint {
    Endpoint::new(format!("10.0.0.{}", n), 8831)
}

fn server_with(routes: &[(&str, u32)]) -> MockRpcClient {
    let route_table = Arc::new(DashMap::default());
    for (table, n) in routes {
        route_table.insert(table.to_string(), endpoint(*n));
    }
    MockRpcClient { route_table }
}

fn client() -> (RouteBasedImpl, RouterImpl) {
    let client = RouteBasedImpl::new("10.0.0.9:8831".to_string(), Some("public".to_string()));
    let router = client.init_router().unwrap();
    (client, router)
}

/// Starts a write and asks the server where the client says so.
fn plan_write(
    client: &mut RouteBasedImpl,
    router: &mut RouterImpl,
    server: &MockRpcClient,
    tables: &[String],
) -> WritePlan {
    match client.write(router, &RpcContext::default(), tables).unwrap() {
        WriteStep::Dispatch(plan) => plan,
        WriteStep::Resolve(routing) => {
            let routes = server.route(routing.pending.request());
            client.write_routed(router, routing, Ok(routes)).unwrap()
        }
    }
}

fn is_cached(router: &RouterImpl, table: &str) -> bool {
    matches!(router.route(&names(&[table])), RouteStep::Done(_))
}

#[test]
fn partitioning_is_complete() {
    let tables = names(&["A", "B", "C"]);
    let x = endpoint(1);
    let endpoints = vec![Some(x.clone()), Some(x.clone()), None];
    let (partitions, unroutable) = partition_by_endpoint(&tables, &endpoints);
    assert_eq!(partitions.len(), 1);
    assert_eq!(partitions[0].endpoint, x);
    assert_eq!(partitions[0].tables, names(&["A", "B"]));
    assert_eq!(unroutable, names(&["C"]));
}

#[test]
fn partitions_follow_first_occurrence() {
    let tables = names(&["a", "b", "c", "d", "e", "f"]);
    let endpoints = vec![
        Some(endpoint(2)),
        None,
        Some(endpoint(1)),
        Some(endpoint(2)),
        None,
        Some(endpoint(1)),
    ];
    let (partitions, unroutable) = partition_by_endpoint(&tables, &endpoints);
    assert_eq!(partitions.len(), 2);
    assert_eq!(partitions[0].endpoint, endpoint(2));
    assert_eq!(partitions[0].tables, names(&["a", "d"]));
    assert_eq!(partitions[1].endpoint, endpoint(1));
    assert_eq!(partitions[1].tables, names(&["c", "f"]));
    assert_eq!(unroutable, names(&["b", "e"]));
    let total: usize = partitions.iter().map(|p| p.tables.len()).sum::<usize>() + unroutable.len();
    assert_eq!(total, tables.len());
}

#[test]
fn partition_of_nothing_is_nothing() {
    let (partitions, unroutable) = partition_by_endpoint(&Vec::new(), &Vec::new());
    assert!(partitions.is_empty());
    assert!(unroutable.is_empty());
}

#[test]
fn distinct_tables_keep_the_first_of_each() {
    assert_eq!(distinct_tables(&names(&["b", "a", "b", "c", "a"])), names(&["b", "a", "c"]));
    assert!(distinct_tables(&[]).is_empty());
}

#[test]
fn first_endpoint_is_that_of_the_first_table() {
    let found = first_endpoint(vec![Some(endpoint(1)), None], "none").unwrap();
    assert_eq!(found, endpoint(1));
    let missing = first_endpoint(vec![None, Some(endpoint(1))], "none");
    assert!(matches!(missing, Err(Error::Unknown(m)) if m == "none"));
    let empty = first_endpoint(Vec::new(), "none");
    assert!(matches!(empty, Err(Error::Unknown(m)) if m == "none"));
}

#[test]
fn pool_keeps_one_client_for_each_endpoint() {
    let mut pool = DirectClientPool::new();
    let first = pool.get_or_create(&endpoint(1));
    assert!(first.created);
    assert_eq!(first.index, 0);
    let second = pool.get_or_create(&endpoint(2));
    assert!(second.created);
    assert_eq!(second.index, 1);
    let again = pool.get_or_create(&endpoint(1));
    assert!(!again.created);
    assert_eq!(again.index, 0);
    let same_address_other_port = pool.get_or_create(&Endpoint::new("10.0.0.1".to_string(), 1));
    assert!(same_address_other_port.created);
    assert_eq!(same_address_other_port.index, 2);
}

#[test]
fn write_is_split_and_merged() {
    let (mut client, mut router) = client();
    let server = server_with(&[("A", 1), ("B", 1), ("C", 2)]);
    let plan = plan_write(&mut client, &mut router, &server, &names(&["A", "C", "B", "A"]));
    assert_eq!(plan.ctx.database, Some("public".to_string()));
    assert_eq!(plan.partitions.len(), 2);
    assert_eq!(plan.partitions[0].endpoint, endpoint(1));
    assert_eq!(plan.partitions[0].tables, names(&["A", "B"]));
    assert_eq!(plan.partitions[1].endpoint, endpoint(2));
    assert_eq!(plan.partitions[1].tables, names(&["C"]));
    assert!(plan.unroutable.is_empty());
    assert_eq!(plan.clients.len(), 2);
    assert!(plan.clients[0].created && plan.clients[0].index == 0);
    assert!(plan.clients[1].created && plan.clients[1].index == 1);

    let results = vec![Ok(Response::new(5, 0)), Ok(Response::new(2, 1))];
    let merged = client.write_finished(&mut router, plan, results).unwrap();
    assert_eq!(merged.success, 7);
    assert_eq!(merged.failed, 1);

    // The next write finds routes and clients in place.
    match client.write(&router, &RpcContext::default(), &names(&["C", "A"])).unwrap() {
        WriteStep::Dispatch(plan) => {
            assert_eq!(plan.partitions[0].endpoint, endpoint(2));
            assert!(!plan.clients[0].created && plan.clients[0].index == 1);
            assert!(!plan.clients[1].created && plan.clients[1].index == 0);
        }
        WriteStep::Resolve(_) => panic!("both tables are cached"),
    }
}

#[test]
fn tables_without_route_go_to_the_default_endpoint() {
    let (mut client, mut router) = client();
    let server = server_with(&[("A", 1)]);
    let plan = plan_write(&mut client, &mut router, &server, &names(&["A", "Z"]));
    assert_eq!(plan.partitions.len(), 2);
    assert_eq!(plan.partitions[1].endpoint, Endpoint::new("10.0.0.9".to_string(), 8831));
    assert_eq!(plan.partitions[1].tables, names(&["Z"]));
    assert!(plan.unroutable.is_empty());
}

#[test]
fn partial_failure_is_isolated() {
    let (client, mut router) = client();
    let plan = WritePlan {
        ctx: RpcContext::default(),
        partitions: partition_by_endpoint(&names(&["A", "B"]), &vec![Some(endpoint(1)); 2]).0,
        clients: Vec::new(),
        unroutable: names(&["C"]),
    };
    let failed = client.write_finished(&mut router, plan, vec![Ok(Response::new(5, 0))]);
    match failed {
        Err(Error::RouteBasedWriteError(merged)) => {
            assert!(!merged.all_ok());
            assert_eq!(merged.ok.0, names(&["A", "B"]));
            assert_eq!(merged.ok.1.success, 5);
            assert_eq!(merged.ok.1.failed, 0);
            assert_eq!(merged.errors.len(), 1);
            assert_eq!(merged.errors[0].0, names(&["C"]));
            assert!(matches!(
                &merged.errors[0].1,
                Error::Unknown(m) if m == "tables don't have corresponding endpoints"
            ));
        }
        _ => panic!("a write with tables that no endpoint serves fails"),
    }
}

#[test]
fn stale_route_is_evicted_and_nothing_else() {
    let (mut client, mut router) = client();
    let server = server_with(&[("A", 1), ("B", 2), ("C", 3), ("D", 4)]);
    let plan = plan_write(&mut client, &mut router, &server, &names(&["A", "B", "C", "D"]));
    let results = vec![
        Ok(Response::new(1, 0)),
        Err(Error::Server(ServerError { code: 400, msg: "Table 'B' not found".to_string() })),
        Err(Error::Server(ServerError { code: 500, msg: "internal error".to_string() })),
        Err(Error::Client("Table 'D' not found".to_string())),
    ];
    let failed = client.write_finished(&mut router, plan, results);
    match failed {
        Err(Error::RouteBasedWriteError(merged)) => {
            assert_eq!(merged.ok.0, names(&["A"]));
            assert_eq!(merged.errors.len(), 3);
            assert_eq!(merged.errors[0].0, names(&["B"]));
            assert_eq!(merged.errors[1].0, names(&["C"]));
            assert_eq!(merged.errors[2].0, names(&["D"]));
        }
        _ => panic!("three partitions failed"),
    }
    assert!(is_cached(&router, "A"));
    assert!(!is_cached(&router, "B"));
    assert!(is_cached(&router, "C"));
    assert!(is_cached(&router, "D"));
}

#[test]
fn failed_route_call_fails_the_write() {
    let (mut client, mut router) = client();
    match client.write(&router, &RpcContext::default(), &names(&["A"])).unwrap() {
        WriteStep::Resolve(routing) => {
            let failed =
                client.write_routed(&mut router, routing, Err(Error::Client("down".to_string())));
            assert!(matches!(failed, Err(Error::Client(m)) if m == "down"));
        }
        WriteStep::Dispatch(_) => panic!("nothing is cached"),
    }
    assert!(!is_cached(&router, "A"));
}

#[test]
fn write_without_database_is_refused() {
    let mut client = RouteBasedImpl::new("10.0.0.9:8831".to_string(), None);
    let router = client.init_router().unwrap();
    let refused = client.write(&router, &RpcContext::default(), &names(&["A"]));
    assert!(matches!(refused, Err(Error::NoDatabase)));
    let ctx = RpcContext::default().database("mine".to_string());
    match client.write(&router, &ctx, &names(&["A"])).unwrap() {
        WriteStep::Resolve(routing) => assert_eq!(routing.ctx.database, Some("mine".to_string())),
        WriteStep::Dispatch(_) => panic!("nothing is cached"),
    }
}

#[test]
fn router_endpoint_must_be_an_endpoint() {
    let client = RouteBasedImpl::new("nowhere".to_string(), None);
    match client.init_router() {
        Err(Error::Client(m)) => assert_eq!(
            m,
            "Failed to parse default endpoint:nowhere, err:Can't find ':' in the source string"
        ),
        _ => panic!("no endpoint in that text"),
    }
}

#[test]
fn empty_table_query_is_rejected() {
    let (mut client, router) = client();
    let req = SqlQueryRequest { tables: Vec::new(), sql: "select 1".to_string() };
    let refused = client.sql_query(&router, &RpcContext::default(), &req);
    assert!(matches!(
        refused,
        Err(Error::Unknown(m)) if m == "tables in query request can't be empty in route based mode"
    ));
    // Refused even where no database could be found either.
    let mut bare = RouteBasedImpl::new("10.0.0.9:8831".to_string(), None);
    assert!(matches!(
        bare.sql_query(&router, &RpcContext::default(), &req),
        Err(Error::Unknown(_))
    ));
}

#[test]
fn query_goes_to_the_endpoint_of_its_first_table() {
    let (mut client, mut router) = client();
    let server = server_with(&[("A", 1), ("B", 2)]);
    let req = SqlQueryRequest { tables: names(&["B", "A"]), sql: "select 1".to_string() };
    let routing = match client.sql_query(&router, &RpcContext::default(), &req).unwrap() {
        QueryStep::Resolve(routing) => routing,
        QueryStep::Send(_) => panic!("nothing is cached"),
    };
    assert_eq!(routing.pending.request(), &names(&["B", "A"]));
    let routes = server.route(routing.pending.request());
    let target = client.sql_query_routed(&mut router, routing, Ok(routes)).unwrap();
    assert_eq!(target.endpoint, endpoint(2));
    assert_eq!(target.ctx.database, Some("public".to_string()));
    assert!(target.client.created);
    assert_eq!(target.client.index, 0);

    // A second query needs no routes and no new client.
    match client.sql_query(&router, &RpcContext::default(), &req).unwrap() {
        QueryStep::Send(target) => {
            assert_eq!(target.endpoint, endpoint(2));
            assert!(!target.client.created);
        }
        QueryStep::Resolve(_) => panic!("both tables are cached"),
    }
}

#[test]
fn failed_query_evicts_all_its_tables() {
    let (mut client, mut router) = client();
    let server = server_with(&[("A", 1), ("B", 2), ("C", 3)]);
    plan_write(&mut client, &mut router, &server, &names(&["A", "B", "C"]));
    let req = SqlQueryRequest { tables: names(&["A", "B"]), sql: "select 1".to_string() };

    let fine: Result<u32, Error> = client.sql_query_finished(&mut router, &req, Ok(7));
    assert!(matches!(fine, Ok(7)));
    assert!(is_cached(&router, "A") && is_cached(&router, "B"));

    let failed: Result<u32, Error> =
        client.sql_query_finished(&mut router, &req, Err(Error::Client("down".to_string())));
    assert!(matches!(failed, Err(Error::Client(m)) if m == "down"));
    assert!(!is_cached(&router, "A"));
    assert!(!is_cached(&router, "B"));
    assert!(is_cached(&router, "C"));
}

#[test]
fn query_with_unasked_route_is_refused() {
    let (mut client, mut router) = client();
    let req = SqlQueryRequest { tables: names(&["A"]), sql: "select 1".to_string() };
    let routing = match client.sql_query(&router, &RpcContext::default(), &req).unwrap() {
        QueryStep::Resolve(routing) => routing,
        QueryStep::Send(_) => panic!("nothing is cached"),
    };
    let routes = vec![Route { table: "B".to_string(), endpoint: Some(endpoint(1)) }];
    let refused = client.sql_query_routed(&mut router, routing, Ok(routes));
    assert!(matches!(refused, Err(Error::Unknown(m)) if m == "Unknown table:B in response"));
}

fn write_point(table: &str, ts: i64) -> horaedb_client::model::write::point::Point {
    horaedb_client::model::write::point::PointBuilder::new(table.to_string())
        .timestamp(ts)
        .field("v".to_string(), horaedb_client::model::value::Value::Int64(ts))
        .build()
        .unwrap()
}

#[test]
fn request_is_split_by_partition() {
    let mut req = horaedb_client::model::write::Request::default();
    req.add_points(vec![
        write_point("A", 1),
        write_point("B", 2),
        write_point("C", 3),
        write_point("A", 4),
        write_point("D", 5),
    ]);
    let tables = req.tables();
    assert_eq!(tables, names(&["A", "B", "C", "D"]));
    let x = endpoint(1);
    let y = endpoint(2);
    let endpoints = vec![Some(x.clone()), Some(y), None, Some(x)];
    let (partitions, unroutable) = partition_by_endpoint(&tables, &endpoints);
    assert_eq!(unroutable, names(&["C"]));
    let (requests, left) = split_request(req, &partitions);
    assert_eq!(requests.len(), 2);
    assert_eq!(requests[0].tables(), names(&["A", "D"]));
    assert_eq!(requests[0].point_groups()[0].1, vec![write_point("A", 1), write_point("A", 4)]);
    assert_eq!(requests[0].point_groups()[1].1, vec![write_point("D", 5)]);
    assert_eq!(requests[1].tables(), names(&["B"]));
    // The points of the table that no endpoint serves are left over.
    assert_eq!(left.tables(), names(&["C"]));
}
