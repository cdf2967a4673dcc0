use rusttp::Response;

#[test]
fn new_response_is_empty_with_status_zero() {
    let response = Response::new();
    assert_eq!(response.status, 0);
    assert_eq!(response.content, "");
    assert!(response.headers.is_empty());
}

#[test]
fn success_response_has_status_200() {
    let response = Response::success();
    assert_eq!(response.status, 200);
    assert_eq!(response.content, "");
}

#[test]
fn setters_update_the_response() {
    let mut response = Response::new();
    response.set_status(201);
    response.set_content("created".to_string());
    response.set_header("X-One".to_string(), "1".to_string());
    response.set_header("X-One".to_string(), "2".to_string());
    assert_eq!(response.status, 201);
    assert_eq!(response.content, "created");
    assert_eq!(response.headers.get("X-One"), Some(&"2".to_string()));
    assert_eq!(response.headers.len(), 1);
}

#[test]
fn set_headers_replaces_the_whole_map() {
    let mut response = Response::new();
    response.set_header("Old".to_string(), "x".to_string());
    let mut fresh = rusttp::strmap::StrMap::new();
    fresh.insert("New".to_string(), "y".to_string());
    response.set_headers(fresh);
    assert_eq!(response.headers.get("Old"), None);
    assert_eq!(response.headers.get("New"), Some(&"y".to_string()));
}

#[test]
fn status_text_maps_known_and_unknown_codes() {
    let mut response = Response::new();
    response.set_status(200);
    assert_eq!(response.status_text(), "OK");
    response.set_status(404);
    assert_eq!(response.status_text(), "Not Found");
    response.set_status(500);
    assert_eq!(response.status_text(), "Internal Server Error");
    response.set_status(418);
    assert_eq!(response.status_text(), "I'm a Teapot");
    response.set_status(599);
    assert_eq!(response.status_text(), "Unknown Status");
}

#[test]
fn build_http_response_renders_the_exact_wire_text() {
    let mut response = Response::success();
    response.set_header("Content-Type".to_string(), "text/plain".to_string());
    response.set_content("hello".to_string());
    assert_eq!(
        response.build_http_response(),
        "HTTP/1.1 200 OK\r\nContent-Type: text/plain\r\nContent-Length: 5\r\n\r\nhello\n\n"
    );
}

#[test]
fn content_length_counts_the_bytes_of_the_body() {
    let mut response = Response::success();
    response.set_content("hi".to_string());
    let text = response.build_http_response();
    assert!(text.contains("Content-Length: 2\r\n"));
    // a two-byte character counts as two bytes, not one
    response.set_content("\u{00E9}".to_string());
    let text = response.build_http_response();
    assert!(text.contains("Content-Length: 2\r\n"));
}

#[test]
fn default_response_is_the_fixed_404() {
    let response = Response::default_response();
    assert_eq!(response.status, 404);
    assert_eq!(response.content, "404 - Not Found");
    assert_eq!(response.headers.get("Content-Type"), Some(&"text/plain".to_string()));
    assert_eq!(
        response.build_http_response(),
        "HTTP/1.1 404 Not Found\r\nContent-Type: text/plain\r\nContent-Length: 15\r\n\r\n404 - Not Found\n\n"
    );
}

#[test]
fn header_lines_keep_insertion_order() {
    let mut response = Response::success();
    response.set_header("A".to_string(), "1".to_string());
    response.set_header("B".to_string(), "2".to_string());
    response.set_header("A".to_string(), "3".to_string());
    assert_eq!(
        response.build_http_response(),
        "HTTP/1.1 200 OK\r\nA: 3\r\nB: 2\r\nContent-Length: 0\r\n\r\n\n\n"
    );
}

#[test]
fn empty_body_has_content_length_zero() {
    let response = Response::success();
    assert_eq!(
        response.build_http_response(),
        "HTTP/1.1 200 OK\r\nContent-Length: 0\r\n\r\n\n\n"
    );
}
