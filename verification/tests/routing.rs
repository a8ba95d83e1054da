use hittery::{
    FnHandler, Handler, IntoBoxedResponse, IntoResponse, RequestError, RequestHead, RequestType,
    Response, Server,
};

fn hello_world(_url: &str) -> Box<dyn IntoResponse> {
    "Hello, world!".to_string().into_boxed_response()
}

fn echo(url: &str) -> Box<dyn IntoResponse> {
    format!("you asked for {}", url).into_boxed_response()
}

fn teapot(_url: &str) -> Box<dyn IntoResponse> {
    Response { status: 418, body: "short and stout".to_string() }.into_boxed_response()
}

struct Fixed {
    status: u16,
    body: &'static str,
}

impl Handler for Fixed {
    fn handle(&self, _url: &str) -> Response {
        Response { status: self.status, body: self.body.to_string() }
    }
}

fn head_of(lines: &[&str]) -> RequestHead {
    let mut head = RequestHead::new();
    for line in lines {
        if !head.feed(line.to_string()) {
            break;
        }
    }
    head
}

fn example_server() -> Server {
    let mut server = Server::new(10);
    server.add_path("/", (), RequestType::GET);
    server.add_path("/hello", FnHandler::new(hello_world), RequestType::GET);
    server
}

const HEAD_200: &str =
    "HTTP/1.1 200\r\nServer: hittery (timelessnesses' own http server)\r\nContent-Type: text/plain\r\n";
const HEAD_404: &str =
    "HTTP/1.1 404\r\nServer: hittery (timelessnesses' own http server)\r\nContent-Type: text/plain\r\n";
const PADDING: &str = "            ";

#[test]
fn new_server_keeps_its_pool_size_and_has_no_routes() {
    let server = Server::new(7);
    assert_eq!(server.thread_pool(), 7);
    assert!(server.lookup("/", RequestType::GET).is_none());
    assert!(server.lookup("", RequestType::POST).is_none());
}

#[test]
fn registered_handler_is_found_under_its_key() {
    let mut server = Server::new(1);
    server.add_path("/a", Fixed { status: 201, body: "a" }, RequestType::GET);
    let found = server.lookup("/a", RequestType::GET).expect("registered");
    let response = found.handle("/a");
    assert_eq!(response.status, 201);
    assert_eq!(response.body, "a");
}

#[test]
fn lookup_distinguishes_methods_and_paths() {
    let mut server = Server::new(1);
    server.add_path("/a", Fixed { status: 201, body: "get a" }, RequestType::GET);
    server.add_path("/a", Fixed { status: 202, body: "post a" }, RequestType::POST);
    server.add_path("/b", Fixed { status: 203, body: "get b" }, RequestType::GET);
    assert_eq!(server.respond("/a", RequestType::GET).body, "get a");
    assert_eq!(server.respond("/a", RequestType::POST).body, "post a");
    assert_eq!(server.respond("/b", RequestType::GET).body, "get b");
    assert!(server.lookup("/b", RequestType::POST).is_none());
    assert!(server.lookup("/A", RequestType::GET).is_none());
    assert!(server.lookup("/a/", RequestType::GET).is_none());
}

#[test]
fn later_registration_under_the_same_key_overwrites() {
    let mut server = Server::new(1);
    server.add_path("/a", Fixed { status: 201, body: "first" }, RequestType::GET);
    server.add_path("/other", Fixed { status: 299, body: "other" }, RequestType::GET);
    assert_eq!(server.respond("/a", RequestType::GET).body, "first");
    server.add_path("/a", Fixed { status: 202, body: "second" }, RequestType::GET);
    let response = server.respond("/a", RequestType::GET);
    assert_eq!(response.status, 202);
    assert_eq!(response.body, "second");
    let other = server.respond("/other", RequestType::GET);
    assert_eq!(other.status, 299);
    assert_eq!(other.body, "other");
}

#[test]
fn registration_keeps_the_pool_size() {
    let mut server = Server::new(3);
    server.add_path("/a", (), RequestType::GET);
    server.add_path("/a", (), RequestType::GET);
    assert_eq!(server.thread_pool(), 3);
}

#[test]
fn unregistered_route_answers_404_naming_the_path() {
    let server = example_server();
    for (path, method) in [
        ("/missing", RequestType::GET),
        ("/hello", RequestType::POST),
        ("/hello/", RequestType::GET),
        ("", RequestType::GET),
        ("/héllo?x=1", RequestType::POST),
    ] {
        let response = server.respond(path, method);
        assert_eq!(response.status, 404);
        assert_eq!(response.body, format!("404 not found: {}", path));
        assert!(response.body.contains(path));
    }
}

#[test]
fn not_found_handler_is_an_ordinary_handler() {
    let response = ().handle("/nowhere");
    assert_eq!(response.status, 404);
    assert_eq!(response.body, "404 not found: /nowhere");
    let registered = example_server().respond("/", RequestType::GET);
    assert_eq!(registered.status, 404);
    assert_eq!(registered.body, "404 not found: /");
}

#[test]
fn function_handler_receives_the_requested_path() {
    let mut server = Server::new(1);
    server.add_path("/echo?x=1", FnHandler::new(echo), RequestType::POST);
    let response = server.respond("/echo?x=1", RequestType::POST);
    assert_eq!(response.status, 200);
    assert_eq!(response.body, "you asked for /echo?x=1");
}

#[test]
fn function_handler_may_choose_its_status() {
    let mut server = Server::new(1);
    server.add_path("/tea", FnHandler::new(teapot), RequestType::GET);
    let response = server.respond("/tea", RequestType::GET);
    assert_eq!(response.status, 418);
    assert_eq!(response.body, "short and stout");
}

#[test]
fn closure_handler_is_accepted() {
    let mut server = Server::new(1);
    let greeting = String::from("hi ");
    server.add_path(
        "/c",
        FnHandler::new(move |url: &str| -> Box<dyn IntoResponse> {
            format!("{}{}", greeting, url).into_boxed_response()
        }),
        RequestType::GET,
    );
    assert_eq!(server.respond("/c", RequestType::GET).body, "hi /c");
}

#[test]
fn get_hello_produces_200_hello_world() {
    let server = example_server();
    let head = head_of(&["GET /hello HTTP/1.1", "Host: localhost", "Accept: */*", ""]);
    let text = server.handle_request(&head).expect("a response");
    assert_eq!(
        text,
        format!("{}Content-Length: 13\r\n\r\nHello, world!\r\n{}", HEAD_200, PADDING)
    );
}

#[test]
fn get_hello_without_version_or_headers_is_served() {
    let server = example_server();
    let text = server.handle_request(&head_of(&["GET /hello"])).expect("a response");
    assert!(text.starts_with("HTTP/1.1 200\r\n"));
    assert!(text.contains("\r\n\r\nHello, world!\r\n"));
}

#[test]
fn get_missing_produces_404_mentioning_the_path() {
    let server = example_server();
    let head = head_of(&["GET /missing HTTP/1.1", ""]);
    let text = server.handle_request(&head).expect("a response");
    assert_eq!(
        text,
        format!("{}Content-Length: 23\r\n\r\n404 not found: /missing\r\n{}", HEAD_404, PADDING)
    );
}

#[test]
fn delete_is_malformed_and_nothing_is_written() {
    let server = example_server();
    let head = head_of(&["DELETE /hello HTTP/1.1", "Host: localhost", ""]);
    assert_eq!(server.handle_request(&head), Err(RequestError::UnsupportedMethod));
}

#[test]
fn request_line_with_one_word_is_unparseable() {
    let server = example_server();
    assert_eq!(server.handle_request(&head_of(&["GET"])), Err(RequestError::Unparseable));
    assert_eq!(server.handle_request(&head_of(&["DELETE"])), Err(RequestError::Unparseable));
    assert_eq!(server.handle_request(&head_of(&["   "])), Err(RequestError::Unparseable));
}

#[test]
fn connection_without_a_request_line_is_unparseable() {
    let server = example_server();
    assert_eq!(server.handle_request(&head_of(&[])), Err(RequestError::Unparseable));
    assert_eq!(
        server.handle_request(&head_of(&["", "GET /hello HTTP/1.1"])),
        Err(RequestError::Unparseable)
    );
}

#[test]
fn path_is_the_routing_key_verbatim() {
    let server = example_server();
    let text = server.handle_request(&head_of(&["GET /hello?name=x HTTP/1.1", ""])).unwrap();
    assert!(text.starts_with("HTTP/1.1 404\r\n"));
    assert!(text.contains("404 not found: /hello?name=x\r\n"));
    let upper = server.handle_request(&head_of(&["GET /HELLO HTTP/1.1", ""])).unwrap();
    assert!(upper.contains("404 not found: /HELLO\r\n"));
}

#[test]
fn post_to_a_get_route_is_not_found() {
    let server = example_server();
    let text = server.handle_request(&head_of(&["POST /hello HTTP/1.1", ""])).unwrap();
    assert!(text.starts_with("HTTP/1.1 404\r\n"));
}

#[test]
fn printable_values_become_status_200() {
    let from_text = "plain".into_response();
    assert_eq!(from_text.status, 200);
    assert_eq!(from_text.body, "plain");
    let from_number = 42u32.into_response();
    assert_eq!(from_number.status, 200);
    assert_eq!(from_number.body, "42");
    let from_string = String::from("owned").into_response();
    assert_eq!(from_string.body, "owned");
}

#[test]
fn response_turns_into_a_copy_of_itself() {
    let given = Response { status: 503, body: "down".to_string() };
    let copy = given.into_response();
    assert_eq!(copy.status, 503);
    assert_eq!(copy.body, "down");
    let cloned = given.clone();
    assert_eq!(cloned.status, given.status);
    assert_eq!(cloned.body, given.body);
    let boxed = given.into_boxed_response().into_response();
    assert_eq!(boxed.status, 503);
    assert_eq!(boxed.body, "down");
}
