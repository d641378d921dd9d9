use horaedb_client::errors::{Error, RouteBasedWriteError, ServerError};
use horaedb_client::model::write::Response;

fn names(tables: &[&str]) -> Vec<String> {
    tables.iter().map(|t| t.to_string()).collect()
}

#[test]
fn merge_of_nothing_is_all_ok() {
    let merged = RouteBasedWriteError::from(Vec::new());
    assert!(merged.all_ok());
    assert!(merged.ok.0.is_empty());
    assert_eq!(merged.ok.1.success, 0);
    assert_eq!(merged.ok.1.failed, 0);
}

#[test]
fn merge_sums_counts_and_keeps_failures_in_order() {
    let outcomes = vec![
        (names(&["a", "b"]), Ok(Response::new(5, 0))),
        (names(&["c"]), Err(Error::Unknown("first".to_string()))),
        (names(&[]), Ok(Response::new(1, 2))),
        (names(&["d"]), Ok(Response::new(10, 20))),
        (
            names(&["e", "f"]),
            Err(Error::Server(ServerError { code: 500, msg: "second".to_string() })),
        ),
    ];
    let merged = RouteBasedWriteError::from(outcomes);
    assert!(!merged.all_ok());
    assert_eq!(merged.ok.0, names(&["a", "b", "d"]));
    assert_eq!(merged.ok.1.success, 16);
    assert_eq!(merged.ok.1.failed, 22);
    assert_eq!(merged.errors.len(), 2);
    assert_eq!(merged.errors[0].0, names(&["c"]));
    assert!(matches!(&merged.errors[0].1, Error::Unknown(m) if m == "first"));
    assert_eq!(merged.errors[1].0, names(&["e", "f"]));
    assert!(matches!(&merged.errors[1].1, Error::Server(e) if e.code == 500 && e.msg == "second"));
}

#[test]
fn merge_counts_do_not_depend_on_the_order() {
    let one = RouteBasedWriteError::from(vec![
        (names(&["a"]), Ok(Response::new(1, 2))),
        (names(&["b"]), Ok(Response::new(3, 4))),
    ]);
    let other = RouteBasedWriteError::from(vec![
        (names(&["b"]), Ok(Response::new(3, 4))),
        (names(&["a"]), Ok(Response::new(1, 2))),
    ]);
    assert_eq!(one.ok.1.success, other.ok.1.success);
    assert_eq!(one.ok.1.failed, other.ok.1.failed);
    assert_eq!(one.ok.0, names(&["a", "b"]));
    assert_eq!(other.ok.0, names(&["b", "a"]));
}

#[test]
fn merge_keeps_a_group_without_tables() {
    let merged = RouteBasedWriteError::from(vec![(
        Vec::new(),
        Err(Error::Client("nothing".to_string())),
    )]);
    assert_eq!(merged.errors.len(), 1);
    assert!(merged.errors[0].0.is_empty());
    assert!(!merged.all_ok());
}

#[test]
fn merge_reaches_the_largest_count() {
    let merged = RouteBasedWriteError::from(vec![
        (names(&["a"]), Ok(Response::new(u32::MAX - 1, 0))),
        (names(&["b"]), Ok(Response::new(1, u32::MAX))),
    ]);
    assert_eq!(merged.ok.1.success, u32::MAX);
    assert_eq!(merged.ok.1.failed, u32::MAX);
}
