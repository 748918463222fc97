use mock_server::cache::Cache;
use mock_server::dict::Dict;
use mock_server::handlers::check_body;
use mock_server::handlers::check_condition;
use mock_server::handlers::check_headers;
use mock_server::handlers::check_queries;
use mock_server::handlers::get_config;
use mock_server::handlers::mock_request;
use mock_server::handlers::save_config;
use mock_server::json::JsonValue;
use mock_server::schema::EndpointKey;
use mock_server::schema::QueryParam;
use mock_server::schema::RequestConfig;
use mock_server::schema::ResponseConfig;
use mock_server::schema::WhenCondition;
use mock_server::schema::key_eq;
use mock_server::store::MemStore;
use mock_server::web_server::types::Method;
use mock_server::web_server::types::Request;

fn create_test_request(method: &Method, path: &str, body: Option<String>) -> Request {
    Request {
        method: *method,
        path: path.to_string(),
        version: "1.1".to_string(),
        headers: Dict::new(),
        body: body.unwrap_or_default(),
        queries: Dict::new(),
        params: Dict::new(),
        matches: Vec::new(),
    }
}

#[test]
fn test_check_condition_all_pass() {
    let condition = WhenCondition {
        method: "GET".to_string(),
        request: Some(RequestConfig { queries: None, headers: None, body: None }),
        response: ResponseConfig { status: 200, headers: Dict::new(), body: None },
        delay: 0,
    };

    let request = create_test_request(&Method::Get, "/test", None);
    assert!(check_condition(&request, &condition, true));
}

#[test]
fn test_check_queries_matching() {
    let mut request_queries = Dict::new();
    request_queries.insert("filter".to_string(), "active".to_string());

    let mut cond_req_queries = Dict::new();
    cond_req_queries.insert(
        "filter".to_string(),
        QueryParam { operator: "is".to_string(), value: "active".to_string() },
    );

    let condition_request = RequestConfig {
        queries: Some(cond_req_queries),
        headers: None,
        body: None,
    };

    assert!(check_queries(&request_queries, &condition_request.queries));
}

#[test]
fn test_check_headers_matching() {
    let mut request_headers = Dict::new();
    request_headers.insert("content-type".to_string(), "application/json".to_string());

    let mut cond_req_headers = Dict::new();
    cond_req_headers.insert("content-type".to_string(), "application/json".to_string());

    let condition_request = RequestConfig {
        queries: None,
        headers: Some(cond_req_headers),
        body: None,
    };

    assert!(check_headers(&request_headers, &condition_request.headers));
}

#[test]
fn test_check_body_strict_matching() {
    let request_body = r#"{"key": "value"}"#.to_string();
    let condition_request = RequestConfig {
        queries: None,
        headers: None,
        body: Some(JsonValue::Obj(vec![(
            "key".to_string(),
            JsonValue::Str("value".to_string()),
        )])),
    };

    assert!(check_body(&request_body, &condition_request.body, true));
}

#[test]
fn query_operator_is_accepts_and_rejects() {
    let mut cond = Dict::new();
    cond.insert(
        "filter".to_string(),
        QueryParam { operator: "is".to_string(), value: "active".to_string() },
    );
    let cond = Some(cond);

    let mut matching = Dict::new();
    matching.insert("filter".to_string(), "active".to_string());
    assert!(check_queries(&matching, &cond));

    let mut other = Dict::new();
    other.insert("filter".to_string(), "inactive".to_string());
    assert!(!check_queries(&other, &cond));
}

#[test]
fn query_operator_contains_not_rejects_substring() {
    let mut cond = Dict::new();
    cond.insert(
        "filter".to_string(),
        QueryParam { operator: "contains!".to_string(), value: "act".to_string() },
    );
    let cond = Some(cond);

    let mut containing = Dict::new();
    containing.insert("filter".to_string(), "inactive".to_string());
    assert!(!check_queries(&containing, &cond));

    let mut free = Dict::new();
    free.insert("filter".to_string(), "idle".to_string());
    assert!(check_queries(&free, &cond));
}

#[test]
fn query_operator_unknown_rejects() {
    let mut cond = Dict::new();
    cond.insert(
        "filter".to_string(),
        QueryParam { operator: "matches".to_string(), value: "active".to_string() },
    );
    let cond = Some(cond);
    let mut rq = Dict::new();
    rq.insert("filter".to_string(), "active".to_string());
    assert!(!check_queries(&rq, &cond));
}

#[test]
fn absent_query_matcher_requires_no_queries() {
    let mut rq = Dict::new();
    rq.insert("filter".to_string(), "active".to_string());
    assert!(!check_queries(&rq, &None));
    assert!(check_queries(&Dict::new(), &None));
}

#[test]
fn absent_header_matcher_accepts_any_headers() {
    let mut rh = Dict::new();
    rh.insert("x-test".to_string(), "value".to_string());
    assert!(check_headers(&rh, &None));
}

#[test]
fn endpoint_key_order_independent() {
    let mut qa = Dict::new();
    qa.insert("a".to_string(), QueryParam { operator: "is".to_string(), value: "1".to_string() });
    qa.insert("b".to_string(), QueryParam { operator: "is".to_string(), value: "2".to_string() });

    let mut qb = Dict::new();
    qb.insert("b".to_string(), QueryParam { operator: "is".to_string(), value: "2".to_string() });
    qb.insert("a".to_string(), QueryParam { operator: "is".to_string(), value: "1".to_string() });

    let ka = EndpointKey { method: "GET".to_string(), queries: Some(qa), body: None };
    let kb = EndpointKey { method: "GET".to_string(), queries: Some(qb), body: None };
    assert!(key_eq(&ka, &kb));
    assert!(key_eq(&kb, &ka));
}

#[test]
fn test_get_config_existing_file() {
    let mut store = MemStore::new();
    store.write_raw("test".to_string(), r#"{"test": "data"}"#.to_string());

    let mut request = create_test_request(&Method::Get, "/projects/test", None);
    request.params.insert("name".to_string(), "test".to_string());

    let response = get_config(&store, &request);
    assert_eq!(response.status, 200);
    assert_eq!(response.body, r#"{"test": "data"}"#);
    assert_eq!(response.headers.get("Content-Type"), Some(&"application/json".to_string()));
}

#[test]
fn test_get_config_nonexistent_file() {
    let store = MemStore::new();
    let mut request = create_test_request(&Method::Get, "/projects/nonexistent", None);
    request.params.insert("name".to_string(), "nonexistent".to_string());

    let response = get_config(&store, &request);
    assert_eq!(response.status, 404);
    assert!(response.body.contains("Project does not exist"));
}

#[test]
fn test_save_config_post_new_project() {
    let mut cache = Cache::new();
    let mut store = MemStore::new();
    let config_data = r#"{"test": "data"}"#;

    let mut request =
        create_test_request(&Method::Post, "/projects/test", Some(config_data.to_string()));
    request.params.insert("name".to_string(), "test".to_string());

    let response = save_config(&mut cache, &mut store, &request);
    assert_eq!(response.status, 200);
    assert!(response.body.contains("ok"));
    assert_eq!(store.read_raw("test"), Some(&config_data.to_string()));
}

#[test]
fn test_save_config_post_existing_project() {
    let mut cache = Cache::new();
    let mut store = MemStore::new();
    store.write_raw("test".to_string(), r#"{"existing": "data"}"#.to_string());

    let mut request =
        create_test_request(&Method::Post, "/projects/test", Some(r#"{"new": "data"}"#.to_string()));
    request.params.insert("name".to_string(), "test".to_string());

    let response = save_config(&mut cache, &mut store, &request);
    assert_eq!(response.status, 400);
    assert!(response.body.contains("Project already exists"));
}

#[test]
fn test_save_config_put_nonexistent_project() {
    let mut cache = Cache::new();
    let mut store = MemStore::new();

    let mut request =
        create_test_request(&Method::Put, "/projects/test", Some(r#"{"new": "data"}"#.to_string()));
    request.params.insert("name".to_string(), "test".to_string());

    let response = save_config(&mut cache, &mut store, &request);
    assert_eq!(response.status, 400);
    assert!(response.body.contains("Project does not exist"));
}

#[test]
fn test_save_config_put_existing_project() {
    let mut cache = Cache::new();
    let mut store = MemStore::new();
    store.write_raw("test".to_string(), r#"{"existing": "data"}"#.to_string());

    let new_data = r#"{"new": "data"}"#;
    let mut request =
        create_test_request(&Method::Put, "/projects/test", Some(new_data.to_string()));
    request.params.insert("name".to_string(), "test".to_string());

    let response = save_config(&mut cache, &mut store, &request);
    assert_eq!(response.status, 200);
    assert!(response.body.contains("ok"));
    assert_eq!(store.read_raw("test"), Some(&new_data.to_string()));
}

#[test]
fn test_mock_request_project_not_found() {
    let mut cache = Cache::new();
    let mut request = create_test_request(&Method::Get, "/projects/nonexistent/api/test", None);
    request.matches = vec!["nonexistent".to_string(), "api/test".to_string()];

    let (response, _delay) = mock_request(&mut cache, None, &request);
    assert_eq!(response.status, 400);
    assert!(response.body.contains("Project does not exist"));
}

#[test]
fn test_mock_request_invalid_config_format() {
    let mut cache = Cache::new();
    let mut request = create_test_request(&Method::Get, "/projects/test/api/test", None);
    request.matches = vec!["test".to_string(), "api/test".to_string()];

    let (response, _delay) = mock_request(&mut cache, Some("invalid json"), &request);
    assert_eq!(response.status, 400);
    assert!(response.body.contains("Invalid project configuration format"));
}

#[test]
fn test_mock_request_no_matching_endpoint() {
    let mut cache = Cache::new();
    let mut request = create_test_request(&Method::Get, "/projects/test/api/test", None);
    request.matches = vec!["test".to_string(), "api/test".to_string()];

    let (response, _delay) = mock_request(
        &mut cache,
        Some(r#"{"description": "test", "endpoints": {}}"#),
        &request,
    );
    assert_eq!(response.status, 406);
    assert_eq!(response.body, "Not implemented.");
}

#[test]
fn duplicate_keys_answer_with_the_last_rule() {
    let mut cache = Cache::new();
    let mut request = create_test_request(&Method::Get, "/projects/dup/api/a", None);
    request.matches = vec!["dup".to_string(), "api/a".to_string()];

    let config = r#"{
        "description": "dup",
        "endpoints": {
            "api/a": {
                "when": [
                    {"method": "GET", "response": {"status": 200, "body": "first", "headers": {}}},
                    {"method": "GET", "response": {"status": 201, "body": "second", "headers": {}}}
                ]
            }
        }}"#;
    let (response, _delay) = mock_request(&mut cache, Some(config), &request);
    assert_eq!(response.status, 201);
    assert_eq!(response.body, "second");
}

#[test]
fn matched_rule_hands_back_its_delay() {
    let mut cache = Cache::new();
    let mut request = create_test_request(&Method::Get, "/projects/slow/api/a", None);
    request.matches = vec!["slow".to_string(), "api/a".to_string()];

    let config = r#"{
        "description": "slow",
        "endpoints": {
            "api/a": {
                "when": [
                    {"method": "GET", "response": {"status": 200, "body": "later", "headers": {}}, "delay": 250}
                ]
            }
        }}"#;
    let (response, delay) = mock_request(&mut cache, Some(config), &request);
    assert_eq!(response.status, 200);
    assert_eq!(delay, 250);
}

#[test]
fn absent_response_body_serializes_as_null() {
    let mut cache = Cache::new();
    let mut request = create_test_request(&Method::Get, "/projects/nul/api/a", None);
    request.matches = vec!["nul".to_string(), "api/a".to_string()];

    let config = r#"{
        "description": "nul",
        "endpoints": {
            "api/a": {
                "when": [
                    {"method": "GET", "response": {"status": 200, "headers": {}}}
                ]
            }
        }}"#;
    let (response, _delay) = mock_request(&mut cache, Some(config), &request);
    assert_eq!(response.body, "null");
}

#[test]
fn json_response_body_keeps_its_json_form() {
    let mut cache = Cache::new();
    let mut request = create_test_request(&Method::Get, "/projects/obj/api/a", None);
    request.matches = vec!["obj".to_string(), "api/a".to_string()];

    let config = r#"{
        "description": "obj",
        "endpoints": {
            "api/a": {
                "when": [
                    {"method": "GET", "response": {"status": 200, "body": {"answer": 40653}, "headers": {}}}
                ]
            }
        }}"#;
    let (response, _delay) = mock_request(&mut cache, Some(config), &request);
    assert_eq!(response.body, "{\"answer\":40653}");
}
