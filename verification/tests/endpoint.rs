use issue_relay::cors::{cors_allow_origin, origin_allowed};
use issue_relay::http::{dispatch, issue_request, issue_response, static_response, Route};

#[test]
fn created_issue_is_passed_through() {
    // The flow of one successful call: the body is read, the remote service
    // answers, and the answer comes back as "created" with the title in it.
    let body = r#"{"title":"Crash on save","description":"It crashes.","confidential":false}"#;
    let params = issue_request(body, 42).unwrap_or_else(|_| panic!("well-formed body rejected"));
    assert_eq!(params.project_id, 42);
    assert_eq!(params.title, "Crash on save");
    let remote_body = format!("{{\"id\":7,\"title\":\"{}\"}}", params.title);
    let resp = issue_response(Ok(remote_body.clone()));
    assert_eq!(resp.status, 201);
    assert_eq!(resp.body, remote_body);
    assert!(resp.body.contains("Crash on save"));
}

#[test]
fn malformed_body_is_rejected_before_the_remote_call() {
    let body = r#"{"description":"no title","confidential":false}"#;
    let err = match issue_request(body, 42) {
        Ok(_) => panic!("malformed body accepted"),
        Err(resp) => resp,
    };
    assert_eq!(err.status, 400);
    assert_eq!(err.body, "Invalid Issue request body");
}

#[test]
fn remote_failure_carries_the_cause() {
    let resp = issue_response(Err(String::from("404 Project Not Found")));
    assert_eq!(resp.status, 400);
    assert_eq!(resp.body, "Failed to create Issue: 404 Project Not Found");
    assert!(resp.body.contains("404 Project Not Found"));
}

#[test]
fn allow_listed_origins_are_echoed() {
    for origin in [
        "http://localhost:8080",
        "http://127.0.0.1:8080",
        "http://localhost:8000",
        "http://0.0.0.0:8000",
        "ws://localhost:8080",
    ] {
        assert!(origin_allowed(origin));
        assert_eq!(cors_allow_origin(origin).as_deref(), Some(origin));
    }
}

#[test]
fn unknown_origin_gets_no_allow_header() {
    for origin in ["http://example.com", "http://localhost:9090", "https://localhost:8080", ""] {
        assert!(!origin_allowed(origin));
        assert!(cors_allow_origin(origin).is_none());
    }
}

#[test]
fn only_the_api_post_reaches_the_endpoint() {
    assert_eq!(dispatch("POST", "/api/issue"), Route::IssueApi);
    assert_eq!(dispatch("GET", "/api/issue"), Route::StaticAsset);
    assert_eq!(dispatch("POST", "/api/other"), Route::StaticAsset);
    assert_eq!(dispatch("GET", "/index.html"), Route::StaticAsset);
    assert_eq!(dispatch("GET", "/"), Route::StaticAsset);
}

#[test]
fn present_asset_is_served_and_absent_asset_is_not_found() {
    let (status, body) = static_response(Some(b"<html></html>".to_vec()));
    assert_eq!(status, 200);
    assert_eq!(body, b"<html></html>".to_vec());
    let (status, body) = static_response(None);
    assert_eq!(status, 404);
    assert!(body.is_empty());
}
