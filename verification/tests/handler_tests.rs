use rusttp::handlers::{
    page_file_path, page_missing_param_response, page_response, say_hi_handler, who_handler,
};
use rusttp::{Method, Request};

fn any_request() -> Request {
    Request::from_u8_buffer(b"GET / HTTP/1.1\r\n\r\n").unwrap()
}

#[test]
fn who_handler_answers_in_plain_text() {
    let response = who_handler(&any_request());
    assert_eq!(response.status, 200);
    assert_eq!(response.content, "Hi, I'm Aryan!");
    assert!(response.headers.is_empty());
}

#[test]
fn say_hi_handler_answers_in_json() {
    let response = say_hi_handler(&any_request());
    assert_eq!(response.status, 200);
    assert_eq!(response.headers.get("Content-Type"), Some(&"application/json".to_string()));
    assert_eq!(
        response.content,
        "{ \"message\": \"Hi, So, this is supposed to be a post method!\"}"
    );
}

#[test]
fn page_file_path_points_into_the_public_directory() {
    assert_eq!(page_file_path("index"), "public/index.html");
}

#[test]
fn page_missing_param_response_asks_for_the_view_parameter() {
    let response = page_missing_param_response();
    assert_eq!(response.status, 404);
    assert_eq!(response.content, "Please specify a page using ?view=value");
}

#[test]
fn page_response_serves_the_file_text_as_html() {
    let response = page_response(Some("<p>hi</p>".to_string()));
    assert_eq!(response.status, 200);
    assert_eq!(response.content, "<p>hi</p>");
    assert_eq!(response.headers.get("Content-Type"), Some(&"text/html".to_string()));
}

#[test]
fn page_response_falls_back_to_the_fixed_404() {
    let response = page_response(None);
    assert_eq!(response.status, 404);
    assert_eq!(response.content, "404 - Not Found");
}

#[test]
fn a_request_drives_a_handler_that_reads_its_query() {
    let request = Request::from_u8_buffer(b"GET /page?view=about HTTP/1.1\r\n\r\n").unwrap();
    assert_eq!(request.get_method(), Method::GET);
    let page = request.get_query_param("view").unwrap().clone();
    assert_eq!(page_file_path(&page), "public/about.html");
}
