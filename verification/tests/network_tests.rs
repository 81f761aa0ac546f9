use dry_exec_core::delta::http::{
    absorb_read, declared_content_length, find_head_end, request_is_complete, REQUEST_BUFFER_BYTES,
};
use dry_exec_core::delta::network::{
    decimal_string, mock_response_bytes, route_plain_request, route_tls_request, tunnel_ack, tunnel_identity,
    ConnectionAction, MockResponse, NetworkBoundary, NetworkMockSchema,
};

fn json_headers() -> Vec<(String, String)> {
    vec![("Content-Type".to_string(), "application/json".to_string())]
}

fn charges_schema() -> NetworkMockSchema {
    let mut schema = NetworkMockSchema::new();
    schema.register_endpoint(
        "POST".to_string(),
        "/v1/charges".to_string(),
        MockResponse { status_code: 200, headers: json_headers(), body: b"{\"id\":\"ch_mock_9988\"}".to_vec() },
    );
    schema
}

#[test]
fn default_mock_response() {
    let m = MockResponse::default();
    assert_eq!(m.status_code, 200);
    assert_eq!(m.headers, json_headers());
    assert_eq!(m.body, b"{\"status\":\"ok\"}".to_vec());
}

#[test]
fn registered_route_matches_in_any_method_case() {
    let schema = charges_schema();
    let found = schema.match_route("post", "/v1/charges").unwrap();
    assert_eq!(found.body, b"{\"id\":\"ch_mock_9988\"}".to_vec());
    assert!(schema.match_route("GET", "/v1/charges").is_none());
    assert!(schema.match_route("POST", "/v1/refunds").is_none());
}

#[test]
fn registering_a_route_again_replaces_its_response() {
    let mut schema = charges_schema();
    schema.register_endpoint(
        "post".to_string(),
        "/v1/charges".to_string(),
        MockResponse { status_code: 201, headers: Vec::new(), body: b"again".to_vec() },
    );
    let found = schema.match_route("POST", "/v1/charges").unwrap();
    assert_eq!(found.status_code, 201);
    assert_eq!(found.body, b"again".to_vec());
}

#[test]
fn response_bytes_have_status_headers_length_and_body() {
    let bytes = mock_response_bytes(200, &json_headers(), b"{\"status\":\"ok\"}");
    assert_eq!(
        bytes,
        b"HTTP/1.1 200 OK\r\nContent-Type: application/json\r\nContent-Length: 15\r\n\r\n{\"status\":\"ok\"}".to_vec()
    );
    let bytes = mock_response_bytes(418, &Vec::new(), b"");
    assert_eq!(bytes, b"HTTP/1.1 418 Status\r\nContent-Length: 0\r\n\r\n".to_vec());
    assert!(mock_response_bytes(404, &Vec::new(), b"x").starts_with(b"HTTP/1.1 404 Not Found\r\n"));
    assert!(mock_response_bytes(201, &Vec::new(), b"x").starts_with(b"HTTP/1.1 201 Created\r\n"));
}

#[test]
fn decimal_strings() {
    assert_eq!(decimal_string(0), "0");
    assert_eq!(decimal_string(7), "7");
    assert_eq!(decimal_string(1_048_576), "1048576");
    assert_eq!(decimal_string(u64::MAX), "18446744073709551615");
}

#[test]
fn registered_request_is_answered_and_recorded() {
    let schema = charges_schema();
    let raw = b"POST /v1/charges HTTP/1.1\r\nHost: 127.0.0.1\r\nContent-Length: 2\r\n\r\n{}";
    match route_plain_request(raw, &schema) {
        ConnectionAction::Respond(outcome) => {
            assert!(!outcome.breach);
            assert_eq!(outcome.record.method, "POST");
            assert_eq!(outcome.record.url, "/v1/charges");
            assert_eq!(outcome.record.request_body, b"{}".to_vec());
            assert_eq!(outcome.record.response_status, 200);
            assert_eq!(outcome.record.response_body, b"{\"id\":\"ch_mock_9988\"}".to_vec());
            assert_eq!(
                outcome.record.headers,
                vec![
                    ("Host".to_string(), "127.0.0.1".to_string()),
                    ("Content-Length".to_string(), "2".to_string()),
                ]
            );
            assert!(outcome.response.starts_with(b"HTTP/1.1 200 OK\r\n"));
        }
        _ => panic!("expected an answered request"),
    }
}

#[test]
fn unregistered_route_is_refused_as_schema_breach() {
    let schema = charges_schema();
    let raw = b"get /v1/health HTTP/1.1\r\nHost: 127.0.0.1\r\n\r\n";
    match route_plain_request(raw, &schema) {
        ConnectionAction::Respond(outcome) => {
            assert!(outcome.breach);
            assert_eq!(outcome.record.method, "GET");
            assert_eq!(outcome.record.response_status, 400);
            let body = b"{\"error\":\"Schema boundary breach: unregistered endpoint\"}".to_vec();
            assert_eq!(outcome.record.response_body, body);
            let mut expected = b"HTTP/1.1 400 Bad Request\r\nContent-Type: application/json\r\nContent-Length: 57\r\n\r\n".to_vec();
            expected.extend_from_slice(&body);
            assert_eq!(outcome.response, expected);
            assert!(outcome.record.request_body.is_empty());
        }
        _ => panic!("expected a refused request"),
    }
}

#[test]
fn header_fields_are_trimmed_and_a_repeated_name_keeps_the_last_value() {
    let schema = NetworkMockSchema::new();
    let raw = b"GET /x HTTP/1.1\r\n  X-A :  one \r\nno colon here\r\nX-A: two\r\n\r\nIgnored: yes";
    match route_plain_request(raw, &schema) {
        ConnectionAction::Respond(outcome) => {
            assert_eq!(outcome.record.headers, vec![("X-A".to_string(), "two".to_string())]);
            assert_eq!(outcome.record.request_body, b"Ignored: yes".to_vec());
        }
        _ => panic!("expected a response"),
    }
}

#[test]
fn connect_request_opens_a_tunnel() {
    let schema = NetworkMockSchema::new();
    let raw = b"CONNECT httpbin.org:443 HTTP/1.1\r\nHost: httpbin.org\r\n\r\n";
    match route_plain_request(raw, &schema) {
        ConnectionAction::Tunnel { target } => assert_eq!(target, "httpbin.org:443"),
        _ => panic!("expected a tunnel"),
    }
}

#[test]
fn bytes_without_a_request_line_are_ignored() {
    let schema = NetworkMockSchema::new();
    assert!(matches!(route_plain_request(b"", &schema), ConnectionAction::Ignore));
    assert!(matches!(route_plain_request(b"GET\r\n\r\n", &schema), ConnectionAction::Ignore));
}

#[test]
fn tls_request_url_is_built_from_the_tunnel_host() {
    let mut schema = NetworkMockSchema::new();
    schema.register_endpoint(
        "GET".to_string(),
        "https://httpbin.org/get".to_string(),
        MockResponse { body: b"{\"mocked\":true}".to_vec(), ..MockResponse::default() },
    );
    let target = "httpbin.org:443".to_string();
    let outcome = route_tls_request(b"GET /get HTTP/1.1\r\nHost: httpbin.org\r\n\r\n", &target, &schema).unwrap();
    assert_eq!(outcome.record.url, "https://httpbin.org/get");
    assert!(!outcome.breach);
    assert_eq!(outcome.record.response_body, b"{\"mocked\":true}".to_vec());
    let absolute =
        route_tls_request(b"GET https://other.example/x HTTP/1.1\r\n\r\n", &"a:443:443".to_string(), &schema).unwrap();
    assert_eq!(absolute.record.url, "https://other.example/x");
    assert!(absolute.breach);
    assert!(route_tls_request(b"", &target, &schema).is_none());
}

#[test]
fn tunnel_identity_is_issued_for_the_host() {
    let id = tunnel_identity(&"httpbin.org:443".to_string()).unwrap();
    assert_eq!(id.host, "httpbin.org");
    assert!(!id.cert_der.is_empty());
    assert!(!id.key_der.is_empty());
}

#[test]
fn tunnel_identity_is_refused_for_a_host_that_is_not_ascii() {
    assert!(tunnel_identity(&"b\u{fc}cher.example:443".to_string()).is_none());
}

#[test]
fn head_end_and_declared_length() {
    assert_eq!(find_head_end(b"GET / HTTP/1.1\r\n\r\nbody"), Some(14));
    assert_eq!(find_head_end(b"GET / HTTP/1.1\r\n"), None);
    assert_eq!(declared_content_length(b"POST / HTTP/1.1\r\ncontent-LENGTH: +42 "), Some(42));
    assert_eq!(declared_content_length(b"POST / HTTP/1.1\r\nContent-Length: x\r\nContent-Length: 7"), Some(7));
    assert_eq!(declared_content_length(b"POST / HTTP/1.1\r\nContent-Length: -1"), None);
    assert_eq!(declared_content_length(b"POST / HTTP/1.1\r\nContent-Length : 5"), None);
    assert_eq!(declared_content_length(b"POST / HTTP/1.1\r\nContent-Length: 99999999999999999999999"), None);
    assert_eq!(declared_content_length(b"X: \xff\r\nContent-Length:\t3\xc2\xa0"), Some(3));
}

#[test]
fn request_completeness() {
    assert!(!request_is_complete(b"POST / HTTP/1.1\r\nContent-Length: 2\r\n"));
    assert!(!request_is_complete(b"POST / HTTP/1.1\r\nContent-Length: 2\r\n\r\n{"));
    assert!(request_is_complete(b"POST / HTTP/1.1\r\nContent-Length: 2\r\n\r\n{}"));
    assert!(request_is_complete(b"GET / HTTP/1.1\r\n\r\n"));
}

#[test]
fn network_boundary_holds_port_and_schema() {
    let boundary = NetworkBoundary { port: 8080, schema: charges_schema() };
    assert_eq!(boundary.port, 8080);
    assert!(boundary.schema.match_route("POST", "/v1/charges").is_some());
}

#[test]
fn reading_stops_at_a_complete_request_at_end_of_stream_or_when_full() {
    let mut buf = Vec::new();
    assert!(!absorb_read(&mut buf, b"POST / HTTP/1.1\r\nContent-Length: 2\r\n"));
    assert!(!absorb_read(&mut buf, b"\r\n{"));
    assert!(absorb_read(&mut buf, b"}"));
    assert_eq!(buf, b"POST / HTTP/1.1\r\nContent-Length: 2\r\n\r\n{}".to_vec());

    let mut partial = b"GET / HTTP/1.1\r\n".to_vec();
    assert!(absorb_read(&mut partial, b""));
    assert_eq!(partial, b"GET / HTTP/1.1\r\n".to_vec());

    let mut full = Vec::new();
    assert!(!absorb_read(&mut full, &vec![b'a'; REQUEST_BUFFER_BYTES - 1]));
    assert!(absorb_read(&mut full, b"a"));
    assert_eq!(full.len(), REQUEST_BUFFER_BYTES);
}

#[test]
fn tunnel_is_acknowledged_before_tls() {
    assert_eq!(tunnel_ack(), b"HTTP/1.1 200 Connection Established\r\n\r\n".to_vec());
}
