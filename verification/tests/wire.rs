use mock_server::dict::Dict;
use mock_server::handlers::check_body;
use mock_server::json::JsonValue;
use mock_server::json::to_json_string;
use mock_server::llm::remove_quotes_if_exists;
use mock_server::text::parse_u64;
use mock_server::text::u64_to_string;
use mock_server::web_server::helpers::content_length_of;
use mock_server::web_server::helpers::parse_header_line;
use mock_server::web_server::helpers::parse_start_line;
use mock_server::web_server::helpers::serialize_headers;
use mock_server::web_server::helpers::serialize_response;
use mock_server::web_server::helpers::stringify_nested;
use mock_server::web_server::types::Method;
use mock_server::web_server::types::Nested;
use mock_server::web_server::types::NestedValue;

#[test]
fn start_line_reads_method_path_version() {
    let parsed = parse_start_line("GET /projects/demo HTTP/1.1").unwrap();
    assert_eq!(parsed.0, Method::Get);
    assert_eq!(parsed.1, "/projects/demo");
    assert_eq!(parsed.2, "HTTP/1.1");

    let lower = parse_start_line("post /x HTTP/1.1").unwrap();
    assert_eq!(lower.0, Method::Post);

    assert!(parse_start_line("GET /only-two").is_none());
    assert!(parse_start_line("DELETE /x HTTP/1.1").is_none());
}

#[test]
fn header_line_splits_at_first_colon_and_trims() {
    let (k, v) = parse_header_line("Content-Length:  42 \r\n").unwrap();
    assert_eq!(k, "Content-Length");
    assert_eq!(v, "42");
    assert!(parse_header_line("no colon here").is_none());
}

#[test]
fn content_length_defaults_to_zero() {
    let mut headers = Dict::new();
    headers.insert("Content-Length".to_string(), "17".to_string());
    assert_eq!(content_length_of(&headers), 17);

    let mut bad = Dict::new();
    bad.insert("Content-Length".to_string(), "many".to_string());
    assert_eq!(content_length_of(&bad), 0);
    assert_eq!(content_length_of(&Dict::new()), 0);
}

#[test]
fn response_serialization_has_explicit_content_length() {
    let mut headers = Dict::new();
    headers.insert("content-type".to_string(), "text/plain".to_string());
    let block = serialize_headers(&headers);
    assert_eq!(block, "content-type: text/plain\r\n");

    let wire = serialize_response(200, &block, "hello");
    assert_eq!(
        wire,
        "HTTP/1.1 200\r\ncontent-type: text/plain\r\nContent-Length: 5\r\n\r\nhello"
    );
}

#[test]
fn decimal_text_round_trips() {
    assert_eq!(u64_to_string(0), "0");
    assert_eq!(u64_to_string(40653), "40653");
    assert_eq!(parse_u64("40653"), Some(40653));
    assert_eq!(parse_u64(""), None);
    assert_eq!(parse_u64("12a"), None);
    assert_eq!(parse_u64("99999999999999999999999"), None);
}

#[test]
fn nested_writes_json_text() {
    let mut body = Nested::new();
    body.insert_string("error".to_string(), "Project does not exist.".to_string());
    assert_eq!(stringify_nested(&body), "{ \"error\": \"Project does not exist.\" }");

    let mut multi = Nested::new();
    multi.insert("flag".to_string(), NestedValue::Bool(true));
    multi.insert("count".to_string(), NestedValue::Int(-3));
    assert_eq!(stringify_nested(&multi), "{ \"flag\": true, \"count\": -3 }");
}

#[test]
fn parsed_json_compares_deeply() {
    let expected = JsonValue::Obj(vec![
        ("a".to_string(), JsonValue::Str("x".to_string())),
        ("b".to_string(), JsonValue::Arr(vec![
            JsonValue::Num("1".to_string()),
            JsonValue::Num("2".to_string()),
        ])),
    ]);
    let body = "{\"b\": [1, 2], \"a\": \"x\"}".to_string();
    assert!(check_body(&body, &Some(expected), true));

    let reordered = JsonValue::Obj(vec![
        ("a".to_string(), JsonValue::Str("x".to_string())),
        ("b".to_string(), JsonValue::Arr(vec![
            JsonValue::Num("2".to_string()),
            JsonValue::Num("1".to_string()),
        ])),
    ]);
    let body = "{\"b\": [1, 2], \"a\": \"x\"}".to_string();
    assert!(!check_body(&body, &Some(reordered), true));

    let body = "not json".to_string();
    assert!(!check_body(&body, &Some(JsonValue::Null), true));
}

#[test]
fn json_serialization_is_compact_and_escaped() {
    let v = JsonValue::Obj(vec![
        ("text".to_string(), JsonValue::Str("a\"b\\c\n".to_string())),
        ("nums".to_string(), JsonValue::Arr(vec![
            JsonValue::Num("1".to_string()),
            JsonValue::Null,
            JsonValue::Bool(false),
        ])),
    ]);
    assert_eq!(
        to_json_string(&v),
        "{\"text\":\"a\\\"b\\\\c\\n\",\"nums\":[1,null,false]}"
    );
}

#[test]
fn code_fences_are_stripped() {
    let given = Ok("```json\n{\"description\": \"d\", \"endpoints\": {}}\n```".to_string());
    let cleaned = remove_quotes_if_exists(given).unwrap();
    assert_eq!(cleaned, "{\"description\": \"d\", \"endpoints\": {}}");

    let bare = Ok("plain".to_string());
    assert_eq!(remove_quotes_if_exists(bare).unwrap(), "plain");
}
