use mock_server::dict::Dict;
use mock_server::web_server::HandlerId;
use mock_server::web_server::Server;
use mock_server::web_server::ServerConf;
use mock_server::web_server::types::Method;
use mock_server::web_server::types::RequestOption;
use mock_server::web_server::types::RequestPathPattern;

fn setup_test_server() -> Server {
    let mut server = Server::new(ServerConf { max_connections: 10 });

    server.get("/projects/:name", HandlerId::GetConfig);
    server.post("/projects/:name", HandlerId::SaveConfig);
    server.put("/projects/:name", HandlerId::SaveConfig);

    server.request(
        HandlerId::MockRequest,
        RequestOption {
            path: RequestPathPattern::Match(r"^/projects/([^/]+)/([^?]+)(?:\?(.*))?$".to_string()),
            method: Method::Get,
        },
    );
    server
}

#[test]
fn test_nonexistent_project() {
    let mut server = setup_test_server();
    let response = server.test_request(Method::Get, "/projects/nonexistent", None, None);
    assert_eq!(response.status, 404);
    assert!(response.body.contains("Project does not exist"));
}

#[test]
fn test_create_and_get_project() {
    let mut server = setup_test_server();

    let test_config = r#"{"description": "test", "endpoints": {}}"#;
    let response = server.test_request(
        Method::Post,
        "/projects/test-project",
        None,
        Some(test_config.to_string()),
    );
    assert_eq!(response.status, 200);

    let response = server.test_request(Method::Get, "/projects/test-project", None, None);
    assert_eq!(response.status, 200);
    assert!(response.body.contains("endpoints"));
}

const MOCK_CONFIG: &str = r#"{
    "description": "test-mock1",
    "endpoints": {
        "api/test": {
            "when": [{
                "method": "GET",
                "request": {
                    "queries": {"filter": {"operator": "is", "value": "active"}},
                    "headers": {"x-test": "value"}
                },
                "response": {
                    "status": 200,
                    "body": "mocked response",
                    "headers": {"content-type": "text/plain"}
                },
                "delay": 0
            }]
        }
    }}"#;

#[test]
fn test_mock_endpoint() {
    let mut server = setup_test_server();
    let response1 = server.test_request(
        Method::Post,
        "/projects/test-mock1",
        None,
        Some(MOCK_CONFIG.to_string()),
    );
    assert_eq!(response1.status, 200);

    let mut headers = Dict::new();
    headers.insert("x-test".to_string(), "value".to_string());
    let response = server.test_request(
        Method::Get,
        "/projects/test-mock1/api/test?filter=active",
        Some(headers),
        None,
    );
    assert_eq!(response.status, 200);
    assert_eq!(response.body, "mocked response");
    assert_eq!(response.headers.get("content-type").unwrap(), "text/plain");
}

#[test]
fn mock_endpoint_without_header_is_not_implemented() {
    let mut server = setup_test_server();
    let response1 = server.test_request(
        Method::Post,
        "/projects/test-mock",
        None,
        Some(MOCK_CONFIG.to_string()),
    );
    assert_eq!(response1.status, 200);

    let response = server.test_request(
        Method::Get,
        "/projects/test-mock/api/test?filter=active",
        None,
        None,
    );
    assert_eq!(response.status, 406);
    assert_eq!(response.body, "Not implemented.");
}

#[test]
fn mock_path_under_unregistered_project_is_400() {
    let mut server = setup_test_server();
    let response = server.test_request(Method::Get, "/projects/ghost/api/test", None, None);
    assert_eq!(response.status, 400);
    assert!(response.body.contains("Project does not exist."));
}

#[test]
fn saved_config_reads_back_byte_identical() {
    let mut server = setup_test_server();
    let text = "{\n  \"description\":\t\"spacing kept\", \"endpoints\": {}}";
    let response = server.test_request(
        Method::Post,
        "/projects/bytes",
        None,
        Some(text.to_string()),
    );
    assert_eq!(response.status, 200);

    let read1 = server.test_request(Method::Get, "/projects/bytes", None, None);
    assert_eq!(read1.status, 200);
    assert_eq!(read1.body, text);

    let replaced = r#"{"description": "two", "endpoints": {}}"#;
    let response = server.test_request(
        Method::Put,
        "/projects/bytes",
        None,
        Some(replaced.to_string()),
    );
    assert_eq!(response.status, 200);

    let read2 = server.test_request(Method::Get, "/projects/bytes", None, None);
    assert_eq!(read2.body, replaced);
}

#[test]
fn repeated_mock_requests_answer_identically_and_writes_invalidate() {
    let mut server = setup_test_server();
    server.test_request(Method::Post, "/projects/idem", None, Some(MOCK_CONFIG.to_string()));

    let mut headers = Dict::new();
    headers.insert("x-test".to_string(), "value".to_string());
    let first = server.test_request(
        Method::Get,
        "/projects/idem/api/test?filter=active",
        Some(headers),
        None,
    );
    let mut headers = Dict::new();
    headers.insert("x-test".to_string(), "value".to_string());
    let second = server.test_request(
        Method::Get,
        "/projects/idem/api/test?filter=active",
        Some(headers),
        None,
    );
    assert_eq!(first.status, second.status);
    assert_eq!(first.body, second.body);

    let changed = r#"{
        "description": "changed",
        "endpoints": {
            "api/test": {
                "when": [{
                    "method": "GET",
                    "request": {"queries": {"filter": {"operator": "is", "value": "active"}}},
                    "response": {"status": 201, "body": "fresh rule", "headers": {}}
                }]
            }
        }}"#;
    let put = server.test_request(Method::Put, "/projects/idem", None, Some(changed.to_string()));
    assert_eq!(put.status, 200);

    let third = server.test_request(
        Method::Get,
        "/projects/idem/api/test?filter=active",
        None,
        None,
    );
    assert_eq!(third.status, 201);
    assert_eq!(third.body, "fresh rule");
}

#[test]
fn keyed_lookup_matches_exact_query_rule() {
    let mut server = setup_test_server();
    let config = r#"{
        "description": "keyed",
        "endpoints": {
            "api/k": {
                "when": [{
                    "method": "GET",
                    "request": {"queries": {"filter": {"operator": "is", "value": "active"}}},
                    "response": {"status": 200, "body": "keyed hit", "headers": {}}
                }]
            }
        }}"#;
    server.test_request(Method::Post, "/projects/keyed", None, Some(config.to_string()));
    let response = server.test_request(
        Method::Get,
        "/projects/keyed/api/k?filter=active",
        None,
        None,
    );
    assert_eq!(response.status, 200);
    assert_eq!(response.body, "keyed hit");
}
