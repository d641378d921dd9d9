use horaedb_client::util::{is_ok, should_refresh, StatusCode};

#[test]
fn status_codes_are_those_of_the_server() {
    assert_eq!(StatusCode::Success.as_u32(), 200);
    assert_eq!(StatusCode::InvalidArgument.as_u32(), 400);
    assert_eq!(StatusCode::NotFound.as_u32(), 404);
    assert_eq!(StatusCode::TooManyRequests.as_u32(), 429);
    assert_eq!(StatusCode::InternalError.as_u32(), 500);
}

#[test]
fn only_200_is_ok() {
    assert!(is_ok(200));
    assert!(!is_ok(0));
    assert!(!is_ok(201));
    assert!(!is_ok(400));
}

#[test]
fn stale_route_needs_code_and_both_words() {
    assert!(should_refresh(400, "Table 'B' not found"));
    assert!(should_refresh(400, "not found: Table"));
    assert!(should_refresh(400, "xTablenot foundy"));
    assert!(!should_refresh(500, "internal error"));
    assert!(!should_refresh(500, "Table 'B' not found"));
    assert!(!should_refresh(404, "Table 'B' not found"));
    assert!(!should_refresh(400, "Table 'B' is missing"));
    assert!(!should_refresh(400, "metric not found"));
    assert!(!should_refresh(400, "table 'B' not found"));
    assert!(!should_refresh(400, "Table 'B' Not Found"));
    assert!(!should_refresh(400, ""));
}
