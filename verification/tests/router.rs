use mock_server::dict::Dict;
use mock_server::web_server::helpers::handle_exact_path;
use mock_server::web_server::helpers::handle_regex_path;
use mock_server::web_server::helpers::parse_request_path;
use mock_server::web_server::helpers::split_path_and_queries;
use mock_server::web_server::types::RequestPathPattern;

#[test]
fn params_is_not_none() {
    let result = parse_request_path(
        &RequestPathPattern::Exact(String::from("/projects/:name")),
        "/projects/my-project",
    );
    assert_eq!(result.unwrap().params.get("name").unwrap(), "my-project");
}

#[test]
fn params_is_none() {
    let result = parse_request_path(
        &RequestPathPattern::Exact(String::from("/projects/")),
        "/projects/",
    );
    assert!(result.unwrap().params.is_empty());
}

#[test]
fn request_path_does_not_match() {
    let result = parse_request_path(
        &RequestPathPattern::Exact(String::from("/projects/:name")),
        "/files/",
    );
    assert!(result.is_none());
}

#[test]
fn test_split_path_and_queries_with_multiple_params() {
    let (path, queries) = split_path_and_queries("/api/users?id=123&name=john");
    assert_eq!(path, "/api/users");
    assert_eq!(queries.get("id").unwrap(), "123");
    assert_eq!(queries.get("name").unwrap(), "john");
}

#[test]
fn test_split_path_and_queries_without_params() {
    let (path, queries) = split_path_and_queries("/api/users");
    assert_eq!(path, "/api/users");
    assert!(queries.is_empty());
}

#[test]
fn test_handle_exact_path_with_params() {
    let queries = Dict::new();
    let result = handle_exact_path("/users/:id/posts/:post_id", "/users/123/posts/456", &queries);
    assert!(result.is_some());
    let path = result.unwrap();
    assert_eq!(path.params.get("id").unwrap(), "123");
    assert_eq!(path.params.get("post_id").unwrap(), "456");
}

#[test]
fn test_handle_exact_path_no_match() {
    let queries = Dict::new();
    let result = handle_exact_path("/users/:id", "/users/123/extra", &queries);
    assert!(result.is_none());
}

#[test]
fn test_handle_regex_path_basic() {
    let queries = Dict::new();
    let result = handle_regex_path(r"^/users/(\d+)$", "/users/123", "/users/123", &queries);
    assert!(result.is_some());
    let path = result.unwrap();
    assert_eq!(path.matches, vec!["123"]);
}

#[test]
fn test_handle_regex_path_multiple_captures() {
    let queries = Dict::new();
    let result = handle_regex_path(
        r"^/users/(\d+)/posts/(\w+)$",
        "/users/123/posts/abc",
        "/users/123/posts/abc",
        &queries,
    );
    assert!(result.is_some());
    let path = result.unwrap();
    assert_eq!(path.matches, vec!["123", "abc"]);
}

#[test]
fn test_handle_regex_path_no_match() {
    let queries = Dict::new();
    let result = handle_regex_path(r"^/users/(\d+)$", "/posts/123", "/posts/123", &queries);
    assert!(result.is_none());
}

#[test]
fn exact_route_rejects_query_string() {
    let result = parse_request_path(
        &RequestPathPattern::Exact(String::from("/projects/:name")),
        "/projects/demo?x=1",
    );
    assert!(result.is_none());
}

#[test]
fn regex_route_keeps_query_map() {
    let result = parse_request_path(
        &RequestPathPattern::Match(String::from(r"^/projects/(\w+)((/\w+)+)(\?(\w+=\w+)(&\w+=\w+)*)?$")),
        "/projects/demo/api/test?filter=active",
    );
    let rp = result.unwrap();
    assert_eq!(rp.queries.get("filter").unwrap(), "active");
    assert_eq!(rp.matches[0], "demo");
    assert_eq!(rp.matches[1], "/api/test");
}
