use rusttp::{DecodeError, Method, Request};

#[test]
fn parse_path_and_query_params_parses_path_without_query_params_correctly() {
    let (path, query_params) = Request::parse_path_and_query_params("/path").unwrap();
    assert_eq!(path, "/path");
    assert!(query_params.is_empty());
}

#[test]
fn parse_path_and_query_params_parses_path_with_query_params_correctly() {
    let (path, query_params) = Request::parse_path_and_query_params("/path?key=value").unwrap();
    assert_eq!(path, "/path");
    assert_eq!(query_params.get("key"), Some(&"value".to_string()));
}

#[test]
fn parse_request_line_parses_valid_request_line() {
    let result = Request::parse_request_line("GET /path HTTP/1.1").unwrap();
    assert_eq!(result.0, Method::GET);
    assert_eq!(result.1, "/path");
    assert!(result.2.is_empty());
    assert_eq!(result.3, "HTTP/1.1");
}

#[test]
fn parse_request_line_returns_error_for_invalid_request_line() {
    let result = Request::parse_request_line("INVALID /path HTTP/1.1");
    assert!(result.is_err());
}

#[test]
fn from_parts_parses_valid_parts() {
    let result = Request::from_parts("GET /path HTTP/1.1", &["Host: example.com", ""]).unwrap();
    assert_eq!(result.get_method(), Method::GET);
    assert_eq!(result.get_path(), "/path");
    assert_eq!(result.get_header("Host".to_string()), Some(&"example.com".to_string()));
}

#[test]
fn from_parts_returns_error_for_invalid_parts() {
    let result = Request::from_parts("INVALID /path HTTP/1.1", &["Host: example.com", ""]);
    assert!(result.is_err());
}

#[test]
fn from_u8_buffer_parses_valid_request() {
    let request = b"GET /path?key=hello HTTP/1.1\r\nHost: example.com\r\n\r\n";
    let result = Request::from_u8_buffer(request).unwrap();
    assert_eq!(result.get_method(), Method::GET);
    assert_eq!(result.get_path(), "/path");
    assert_eq!(result.get_header("Host".to_string()), Some(&"example.com".to_string()));
    assert_eq!(result.get_query_param("key"), Some(&"hello".to_string()));
}

#[test]
fn from_u8_buffer_returns_error_for_invalid_request() {
    let request = b"INVALID /path HTTP/1.1\r\nHost: example.com\r\n\r\n";
    let result = Request::from_u8_buffer(request);
    assert!(result.is_err());
}

#[test]
fn parse_method_parses_valid_method() {
    let result = Request::parse_method(Some("GET")).unwrap();
    assert_eq!(result, Method::GET);
}

#[test]
fn parse_method_returns_error_for_invalid_method() {
    let result = Request::parse_method(Some("INVALID"));
    assert!(result.is_err());
}

#[test]
fn parse_method_recognises_every_method_name() {
    for (name, method) in [
        ("GET", Method::GET),
        ("POST", Method::POST),
        ("PUT", Method::PUT),
        ("DELETE", Method::DELETE),
        ("PATCH", Method::PATCH),
        ("OPTIONS", Method::OPTIONS),
        ("HEAD", Method::HEAD),
    ] {
        assert_eq!(Request::parse_method(Some(name)).unwrap(), method);
        assert_eq!(method.as_str(), name);
    }
}

#[test]
fn parse_method_is_case_sensitive_and_rejects_absent_token() {
    assert_eq!(Request::parse_method(Some("get")), Err(DecodeError::UnsupportedMethod));
    assert_eq!(Request::parse_method(None), Err(DecodeError::UnsupportedMethod));
}

#[test]
fn request_line_with_wrong_token_count_is_malformed() {
    assert_eq!(
        Request::parse_request_line("GET /path").unwrap_err(),
        DecodeError::MalformedRequest
    );
    assert_eq!(
        Request::parse_request_line("GET /path HTTP/1.1 extra").unwrap_err(),
        DecodeError::MalformedRequest
    );
    assert_eq!(Request::parse_request_line("").unwrap_err(), DecodeError::MalformedRequest);
}

#[test]
fn decode_request_line_yields_method_path_and_query_params() {
    let result = Request::parse_request_line("POST /items?k1=v1&k2=v2 HTTP/1.1").unwrap();
    assert_eq!(result.0, Method::POST);
    assert_eq!(result.1, "/items");
    assert_eq!(result.2.get("k1"), Some(&"v1".to_string()));
    assert_eq!(result.2.get("k2"), Some(&"v2".to_string()));
    assert_eq!(result.2.len(), 2);
    assert_eq!(result.3, "HTTP/1.1");
}

#[test]
fn decoding_twice_yields_an_equal_request() {
    let buffer = b"GET /path?key=hello HTTP/1.1\r\nHost: example.com\r\n\r\nbody text";
    let first = Request::from_u8_buffer(buffer).unwrap();
    let second = Request::from_u8_buffer(buffer).unwrap();
    assert_eq!(first.get_method(), second.get_method());
    assert_eq!(first.get_path(), second.get_path());
    assert_eq!(first.get_body(), second.get_body());
    assert_eq!(first.get_http_version(), second.get_http_version());
    assert_eq!(
        first.get_header("Host".to_string()),
        second.get_header("Host".to_string())
    );
    assert_eq!(first.get_query_param("key"), second.get_query_param("key"));
}

#[test]
fn duplicate_header_keys_keep_the_last_value() {
    let buffer = b"GET / HTTP/1.1\r\nX-Tag: first\r\nX-Tag: second\r\n\r\n";
    let result = Request::from_u8_buffer(buffer).unwrap();
    assert_eq!(result.get_header("X-Tag".to_string()), Some(&"second".to_string()));
}

#[test]
fn duplicate_query_keys_keep_the_last_value() {
    let buffer = b"GET /p?a=1&b=2&a=3 HTTP/1.1\r\n\r\n";
    let result = Request::from_u8_buffer(buffer).unwrap();
    assert_eq!(result.get_query_param("a"), Some(&"3".to_string()));
    assert_eq!(result.get_query_param("b"), Some(&"2".to_string()));
}

#[test]
fn query_fragment_without_equals_is_dropped() {
    let buffer = b"GET /p?a=1&junk&b=2 HTTP/1.1\r\n\r\n";
    let result = Request::from_u8_buffer(buffer).unwrap();
    assert_eq!(result.get_query_param("a"), Some(&"1".to_string()));
    assert_eq!(result.get_query_param("b"), Some(&"2".to_string()));
    assert_eq!(result.get_query_param("junk"), None);
}

#[test]
fn header_line_without_colon_is_dropped_and_fields_are_trimmed() {
    let result =
        Request::from_parts("GET / HTTP/1.1", &["no colon here", "  Key  :  value  ", ""]).unwrap();
    assert_eq!(result.get_header("Key".to_string()), Some(&"value".to_string()));
    assert_eq!(result.get_header("no colon here".to_string()), None);
}

#[test]
fn body_lines_are_joined_with_newlines() {
    let buffer = b"POST /submit HTTP/1.1\r\nHost: x\r\n\r\nline one\r\nline two";
    let result = Request::from_u8_buffer(buffer).unwrap();
    assert_eq!(result.get_body(), "line one\nline two");
}

#[test]
fn buffer_is_truncated_at_the_first_nul_byte() {
    let mut buffer = [0u8; 64];
    let request = b"GET /fixed HTTP/1.1\r\n\r\n";
    buffer[..request.len()].copy_from_slice(request);
    let result = Request::from_u8_buffer(&buffer).unwrap();
    assert_eq!(result.get_method(), Method::GET);
    assert_eq!(result.get_path(), "/fixed");
    assert_eq!(result.get_body(), "");
}

#[test]
fn invalid_utf8_bytes_are_replaced_not_rejected() {
    let buffer = b"GET /p\xFF HTTP/1.1\r\n\r\n";
    let result = Request::from_u8_buffer(buffer).unwrap();
    assert_eq!(result.get_path(), "/p\u{FFFD}");
}
