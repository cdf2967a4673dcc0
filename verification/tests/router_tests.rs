use rusttp::{DecodeError, Handler, Method, Request, Response, Router};

struct FixedHandler {
    status: u16,
    body: &'static str,
}

impl Handler for FixedHandler {
    fn handle(&self, _req: &Request) -> Response {
        let mut response = Response::new();
        response.set_status(self.status);
        response.set_content(self.body.to_string());
        response
    }
}

struct EchoPathHandler;

impl Handler for EchoPathHandler {
    fn handle(&self, req: &Request) -> Response {
        let mut response = Response::success();
        response.set_content(req.get_path());
        response
    }
}

#[test]
fn lookup_finds_a_registered_route() {
    let mut router: Router<u32> = Router::new();
    router.add_route(Method::GET, "/a", 1);
    router.add_route(Method::POST, "/a", 2);
    router.add_route(Method::GET, "/b", 3);
    assert_eq!(router.lookup(&Method::GET, "/a"), Some(&1));
    assert_eq!(router.lookup(&Method::POST, "/a"), Some(&2));
    assert_eq!(router.lookup(&Method::GET, "/b"), Some(&3));
}

#[test]
fn lookup_misses_an_unregistered_route() {
    let mut router: Router<u32> = Router::new();
    router.add_route(Method::GET, "/a", 1);
    assert_eq!(router.lookup(&Method::POST, "/a"), None);
    assert_eq!(router.lookup(&Method::GET, "/b"), None);
    assert_eq!(router.lookup(&Method::GET, "/a/"), None);
}

#[test]
fn registering_the_same_route_twice_keeps_the_second_handler() {
    let mut router: Router<u32> = Router::new();
    router.add_route(Method::GET, "/a", 1);
    router.add_route(Method::GET, "/a", 2);
    assert_eq!(router.lookup(&Method::GET, "/a"), Some(&2));
}

#[test]
fn dispatch_serves_a_registered_handler() {
    let mut router: Router<FixedHandler> = Router::new();
    router.add_route(Method::GET, "/hello", FixedHandler { status: 200, body: "Hello, world!" });
    let text = router.dispatch_buffer(b"GET /hello HTTP/1.1\r\nHost: x\r\n\r\n").unwrap();
    assert_eq!(text, "HTTP/1.1 200 OK\r\nContent-Length: 13\r\n\r\nHello, world!\n\n");
}

#[test]
fn dispatch_serves_the_fixed_404_on_a_miss() {
    let router: Router<FixedHandler> = Router::new();
    let text = router.dispatch_buffer(b"GET /missing HTTP/1.1\r\n\r\n").unwrap();
    assert_eq!(
        text,
        "HTTP/1.1 404 Not Found\r\nContent-Type: text/plain\r\nContent-Length: 15\r\n\r\n404 - Not Found\n\n"
    );
}

#[test]
fn dispatch_reports_a_decode_failure_and_keeps_serving() {
    let mut router: Router<FixedHandler> = Router::new();
    router.add_route(Method::GET, "/hello", FixedHandler { status: 200, body: "Hello, world!" });
    let result = router.dispatch_buffer(b"INVALID /x HTTP/1.1\r\n\r\n");
    assert_eq!(result.unwrap_err(), DecodeError::UnsupportedMethod);
    // the failure is scoped to that connection: the next one is served normally
    let text = router.dispatch_buffer(b"GET /hello HTTP/1.1\r\nHost: x\r\n\r\n").unwrap();
    assert_eq!(text, "HTTP/1.1 200 OK\r\nContent-Length: 13\r\n\r\nHello, world!\n\n");
}

#[test]
fn dispatch_hands_the_parsed_request_to_the_handler() {
    let mut router: Router<EchoPathHandler> = Router::new();
    router.add_route(Method::GET, "/echo", EchoPathHandler);
    let text = router.dispatch_buffer(b"GET /echo?x=1 HTTP/1.1\r\n\r\n").unwrap();
    assert_eq!(text, "HTTP/1.1 200 OK\r\nContent-Length: 5\r\n\r\n/echo\n\n");
}

#[test]
fn dispatch_rejects_a_malformed_request_line() {
    let router: Router<FixedHandler> = Router::new();
    let result = router.dispatch_buffer(b"nonsense");
    assert_eq!(result.unwrap_err(), DecodeError::MalformedRequest);
}
