use std::time::Duration;

use horaedb_client::config::{Authorization, RpcConfig};
use horaedb_client::db_client::{Builder, ClientKind, Mode};
use horaedb_client::db_client::raw::RawImpl;
use horaedb_client::db_client::result::WriteResult;
use horaedb_client::db_client::resolve_database;
use horaedb_client::errors::Error;
use horaedb_client::model::row::{ColumnDataType, ColumnSchema, Schema};
use horaedb_client::model::write::point::is_reserved_column_name;
use horaedb_client::model::write::Response;
use horaedb_client::rpc_client::rpc_client_impl::{check_status, request_timeout};
use horaedb_client::rpc_client::{RpcClientImplFactory, RpcContext};

#[test]
fn default_config_is_as_documented() {
    let config = RpcConfig::default();
    assert_eq!(config.thread_num, None);
    assert_eq!(config.max_send_msg_len, 20 * (1 << 20));
    assert_eq!(config.max_recv_msg_len, 1 << 30);
    assert_eq!(config.keep_alive_interval, Duration::from_secs(60 * 10));
    assert_eq!(config.keep_alive_timeout, Duration::from_secs(3));
    assert!(config.keep_alive_while_idle);
    assert_eq!(config.default_write_timeout, Duration::from_secs(5));
    assert_eq!(config.default_sql_query_timeout, Duration::from_secs(60));
    assert_eq!(config.connect_timeout, Duration::from_secs(3));
    assert!(config.authorization.is_none());
}

#[test]
fn context_is_built_step_by_step() {
    let ctx = RpcContext::default();
    assert!(ctx.database.is_none() && ctx.timeout.is_none());
    let ctx = ctx.database("db".to_string()).timeout(Duration::from_millis(10));
    assert_eq!(ctx.database, Some("db".to_string()));
    assert_eq!(ctx.timeout, Some(Duration::from_millis(10)));
    let copy = ctx.clone();
    assert_eq!(copy.database, ctx.database);
    assert_eq!(copy.timeout, ctx.timeout);
}

#[test]
fn database_of_the_call_comes_first() {
    let named = RpcContext::default().database("mine".to_string()).timeout(Duration::from_secs(1));
    let resolved = resolve_database(&named, &Some("default".to_string())).unwrap();
    assert_eq!(resolved.database, Some("mine".to_string()));
    assert_eq!(resolved.timeout, Some(Duration::from_secs(1)));
    let resolved = resolve_database(&named, &None).unwrap();
    assert_eq!(resolved.database, Some("mine".to_string()));

    let unnamed = RpcContext::default().timeout(Duration::from_secs(2));
    let resolved = resolve_database(&unnamed, &Some("default".to_string())).unwrap();
    assert_eq!(resolved.database, Some("default".to_string()));
    assert_eq!(resolved.timeout, Some(Duration::from_secs(2)));
    assert!(matches!(resolve_database(&unnamed, &None), Err(Error::NoDatabase)));
}

#[test]
fn builder_builds_the_client_of_its_mode() {
    let (_, direct) = Builder::new("10.0.0.9:8831".to_string(), Mode::Direct)
        .default_database("public".to_string())
        .build();
    match direct {
        ClientKind::Direct(client) => {
            let router = client.init_router();
            assert!(router.is_ok());
        }
        ClientKind::Proxy(_) => panic!("asked for direct mode"),
    }

    let auth = Authorization { username: "u".to_string(), password: "p".to_string() };
    let mut config = RpcConfig::default();
    config.keep_alive_while_idle = false;
    config.connect_timeout = Duration::from_secs(7);
    let (factory, proxy) = Builder::new("10.0.0.9:8831".to_string(), Mode::Proxy)
        .rpc_config(config)
        .authorization(auth)
        .default_database("public".to_string())
        .build();
    match proxy {
        ClientKind::Proxy(client) => {
            assert_eq!(client.target(), "10.0.0.9:8831");
            let ctx = client.context(&RpcContext::default()).unwrap();
            assert_eq!(ctx.database, Some("public".to_string()));
        }
        ClientKind::Direct(_) => panic!("asked for proxy mode"),
    }
    let settings = factory.channel_settings("10.0.0.1:8831");
    assert_eq!(settings.uri, "http://10.0.0.1:8831");
    assert_eq!(settings.connect_timeout, Duration::from_secs(7));
    assert!(!settings.keep_alive_while_idle);
    assert!(settings.keep_alive_timeout.is_none());
    assert!(settings.http2_keep_alive_interval.is_none());
    assert_eq!(factory.default_read_timeout(), Duration::from_secs(60));
    assert_eq!(factory.default_write_timeout(), Duration::from_secs(5));
}

#[test]
fn channel_is_kept_alive_by_default() {
    let factory = RpcClientImplFactory::new(RpcConfig::default(), None);
    let settings = factory.channel_settings("h:1");
    assert_eq!(settings.uri, "http://h:1");
    assert!(settings.keep_alive_while_idle);
    assert_eq!(settings.connect_timeout, Duration::from_secs(3));
    assert_eq!(settings.keep_alive_timeout, Some(Duration::from_secs(3)));
    assert_eq!(settings.http2_keep_alive_interval, Some(Duration::from_secs(600)));
    assert_eq!(RpcClientImplFactory::make_endpoint_with_scheme("h:1"), "http://h:1");
}

#[test]
fn raw_client_without_database_refuses() {
    let client = RawImpl::new("h:1".to_string(), None);
    assert!(matches!(client.context(&RpcContext::default()), Err(Error::NoDatabase)));
}

#[test]
fn status_other_than_200_is_a_server_error() {
    assert!(check_status(200, "ignored".to_string()).is_ok());
    match check_status(404, "no such table".to_string()) {
        Err(Error::Server(e)) => {
            assert_eq!(e.code, 404);
            assert_eq!(e.msg, "no such table");
        }
        _ => panic!("404 is an error of the server"),
    }
}

#[test]
fn timeout_of_the_context_comes_first() {
    let default_timeout = Duration::from_secs(5);
    assert_eq!(request_timeout(&RpcContext::default(), default_timeout), default_timeout);
    let ctx = RpcContext::default().timeout(Duration::from_millis(1));
    assert_eq!(request_timeout(&ctx, default_timeout), Duration::from_millis(1));
}

#[test]
fn write_result_holds_what_it_is_given() {
    let result = WriteResult::new(vec!["m".to_string()], Ok(Response::new(1, 2)));
    assert_eq!(result.metrics, vec!["m".to_string()]);
    assert_eq!(result.result.unwrap().failed, 2);
}

#[test]
fn columns_are_found_by_name() {
    let schema = Schema {
        column_schemas: vec![
            ColumnSchema { data_type: ColumnDataType::TimestampMillis, name: "t".to_string() },
            ColumnSchema { data_type: ColumnDataType::Double, name: "v".to_string() },
            ColumnSchema { data_type: ColumnDataType::Int32, name: "t".to_string() },
        ],
    };
    assert_eq!(schema.num_cols(), 3);
    assert_eq!(schema.col_idx("t"), Some(0));
    assert_eq!(schema.col_idx("v"), Some(1));
    assert_eq!(schema.col_idx("w"), None);
    assert_eq!(Schema::default().num_cols(), 0);
    assert_eq!(Schema::default().col_idx("t"), None);
}

#[test]
fn reserved_column_names_ignore_ascii_case() {
    assert!(is_reserved_column_name("tsid"));
    assert!(is_reserved_column_name("TSID"));
    assert!(is_reserved_column_name("TsId"));
    assert!(is_reserved_column_name("timestamp"));
    assert!(is_reserved_column_name("TimeStamp"));
    assert!(!is_reserved_column_name("tsid "));
    assert!(!is_reserved_column_name("timestamps"));
    assert!(!is_reserved_column_name("time"));
    assert!(!is_reserved_column_name(""));
    assert!(!is_reserved_column_name("tſid"));
    assert!(!is_reserved_column_name("tsıd"));
}
