use http_core::handler::{
    plan_route, respond_to_read, respond_to_write, router, MemoryStore, RouteAction, StoreError,
};
use http_core::headers::HeaderMap;
use http_core::text::decimal_text;
use http_core::http::{
    make_http_200_return_file, make_http_200_return_text, make_http_404_not_found,
    make_http_empty, parse_http_bytes, parse_http_method, parse_http_request, HTTPMethod,
    HTTPRequest, HTTPResponse, HTTPResponseStatus, ParseError,
};

fn request(text: &str) -> HTTPRequest {
    match parse_http_request(text) {
        Ok(r) => r,
        Err(e) => panic!("request did not parse: {:?}", e),
    }
}

fn route(text: &str, store: &mut MemoryStore) -> HTTPResponse {
    router(request(text), store)
}

fn header_of(r: &HTTPResponse, key: &str) -> Option<String> {
    r.header.as_ref().and_then(|h| h.get(key))
}

#[test]
fn parse_start_line_headers_and_body() {
    let r = request("GET /index.html HTTP/1.1\r\nHost: localhost\r\nAccept:  */* \r\n\r\nhello\r\nworld");
    assert_eq!(r.method, HTTPMethod::GET);
    assert_eq!(r.path, "/index.html");
    assert_eq!(r.version, "HTTP/1.1");
    assert_eq!(r.header.len(), 2);
    assert_eq!(r.header.get("host"), Some("localhost".to_string()));
    assert_eq!(r.header.get("accept"), Some("*/*".to_string()));
    assert_eq!(r.body, Some("hello\r\nworld".to_string()));
}

#[test]
fn parse_accepts_bare_line_feeds() {
    let r = request("POST /files/a HTTP/1.1\nContent-Length: 5\n\nhello\n");
    assert_eq!(r.method, HTTPMethod::POST);
    assert_eq!(r.header.get("content-length"), Some("5".to_string()));
    assert_eq!(r.body, Some("hello".to_string()));
}

#[test]
fn parse_drops_blank_body_lines() {
    let r = request("POST /x HTTP/1.1\r\n\r\na\r\n\r\nb\r\n");
    assert_eq!(r.body, Some("a\r\nb".to_string()));
}

#[test]
fn parse_without_body_has_none() {
    let r = request("GET / HTTP/1.1\r\nHost: x\r\n\r\n");
    assert_eq!(r.body, None);
    let r = request("GET / HTTP/1.1");
    assert_eq!(r.body, None);
    assert_eq!(r.header.len(), 0);
}

#[test]
fn parse_method_in_any_case() {
    assert_eq!(parse_http_method("get"), Ok(HTTPMethod::GET));
    assert_eq!(parse_http_method("Patch"), Ok(HTTPMethod::PATCH));
    assert_eq!(parse_http_method("options"), Ok(HTTPMethod::OPTIONS));
    assert_eq!(parse_http_method("FETCH"), Err(ParseError::UnsupportedMethod));
    let r = request("delete /a HTTP/1.1\r\n\r\n");
    assert_eq!(r.method, HTTPMethod::DELETE);
}

#[test]
fn parse_ignores_tokens_after_version() {
    let r = request("GET  /a   HTTP/1.1 extra\r\n\r\n");
    assert_eq!(r.path, "/a");
    assert_eq!(r.version, "HTTP/1.1");
}

#[test]
fn parse_errors() {
    assert!(matches!(parse_http_request(""), Err(ParseError::EmptyRequest)));
    assert!(matches!(parse_http_request("\r\n"), Err(ParseError::MalformedStartLine)));
    assert!(matches!(parse_http_request("GET /"), Err(ParseError::MalformedStartLine)));
    assert!(matches!(parse_http_request("GET"), Err(ParseError::MalformedStartLine)));
    assert!(matches!(parse_http_request("BREW / HTTP/1.1"), Err(ParseError::UnsupportedMethod)));
    assert!(matches!(parse_http_request("BREW"), Err(ParseError::MalformedStartLine)));
    assert!(matches!(parse_http_request("BREW /"), Err(ParseError::MalformedStartLine)));
    assert!(matches!(
        parse_http_request("GET / HTTP/1.1\r\nno colon here\r\n\r\n"),
        Err(ParseError::MalformedHeader)
    ));
}

#[test]
fn parse_bytes_checks_encoding() {
    assert!(matches!(parse_http_bytes(&[0x47, 0xff, 0x20]), Err(ParseError::Encoding)));
    let r = parse_http_bytes("GET /echo/é HTTP/1.1\r\n\r\n".as_bytes()).unwrap();
    assert_eq!(r.path, "/echo/é");
    assert!(matches!(parse_http_bytes(b""), Err(ParseError::EmptyRequest)));
}

#[test]
fn header_split_on_first_colon() {
    let r = request("GET / HTTP/1.1\r\nHost: localhost:4221\r\n\r\n");
    assert_eq!(r.header.get("host"), Some("localhost:4221".to_string()));
}

#[test]
fn header_keys_are_case_insensitive() {
    let a = request("GET / HTTP/1.1\r\nUser-Agent: x\r\n\r\n");
    let b = request("GET / HTTP/1.1\r\nuser-agent: x\r\n\r\n");
    assert_eq!(a.header.len(), 1);
    assert_eq!(b.header.len(), 1);
    let (ka, va) = a.header.entry(0);
    let (kb, vb) = b.header.entry(0);
    assert_eq!(ka, "user-agent");
    assert_eq!(ka, kb);
    assert_eq!(va, vb);
    assert_eq!(va, "x");
}

#[test]
fn later_duplicate_header_wins() {
    let r = request("GET / HTTP/1.1\r\nX-A: 1\r\nx-a: 2\r\n\r\n");
    assert_eq!(r.header.len(), 1);
    assert_eq!(r.header.get("x-a"), Some("2".to_string()));
}

#[test]
fn root_is_bare_ok() {
    let mut store = MemoryStore::new();
    let r = route("GET / HTTP/1.1\r\n\r\n", &mut store);
    assert_eq!(r.status, HTTPResponseStatus::OK);
    assert!(r.header.is_none());
    assert!(r.body.is_none());
    assert_eq!(r.to_string(), "HTTP/1.1 200 OK\r\n\r\n");
}

#[test]
fn echo_returns_text() {
    let mut store = MemoryStore::new();
    let r = route("GET /echo/abc HTTP/1.1\r\n\r\n", &mut store);
    assert_eq!(r.status, HTTPResponseStatus::OK);
    assert_eq!(r.body, Some("abc".to_string()));
    assert_eq!(header_of(&r, "Content-Type"), Some("text/plain".to_string()));
    assert_eq!(header_of(&r, "Content-Length"), Some("3".to_string()));
    assert_eq!(
        r.to_string(),
        "HTTP/1.1 200 OK\r\nContent-Type: text/plain\r\nContent-Length: 3\r\n\r\nabc\r\n"
    );
}

#[test]
fn echo_rejoins_segments() {
    let mut store = MemoryStore::new();
    let r = route("GET /echo/a/b HTTP/1.1\r\n\r\n", &mut store);
    assert_eq!(r.body, Some("a/b".to_string()));
    let r = route("GET //echo//a///b/ HTTP/1.1\r\n\r\n", &mut store);
    assert_eq!(r.body, Some("a/b".to_string()));
}

#[test]
fn echo_counts_bytes_not_characters() {
    let mut store = MemoryStore::new();
    let r = route("GET /echo/héllo HTTP/1.1\r\n\r\n", &mut store);
    assert_eq!(header_of(&r, "Content-Length"), Some("6".to_string()));
}

#[test]
fn echo_of_nothing_is_empty_text() {
    let mut store = MemoryStore::new();
    let r = route("GET /echo HTTP/1.1\r\n\r\n", &mut store);
    assert_eq!(r.status, HTTPResponseStatus::OK);
    assert_eq!(r.body, Some(String::new()));
    assert_eq!(header_of(&r, "Content-Length"), Some("0".to_string()));
}

#[test]
fn user_agent_is_echoed() {
    let mut store = MemoryStore::new();
    let r = route("GET /user-agent HTTP/1.1\r\nUser-Agent: curl/8.0\r\n\r\n", &mut store);
    assert_eq!(r.status, HTTPResponseStatus::OK);
    assert_eq!(r.body, Some("curl/8.0".to_string()));
    let r = route("GET /user-agent HTTP/1.1\r\n\r\n", &mut store);
    assert_eq!(r.status, HTTPResponseStatus::NotFound);
    assert!(r.body.is_none());
}

#[test]
fn posted_file_can_be_read_back() {
    let mut store = MemoryStore::new();
    let r = route("POST /files/report.txt HTTP/1.1\r\nContent-Length: 5\r\n\r\nhello", &mut store);
    assert_eq!(r.status, HTTPResponseStatus::Created);
    assert_eq!(r.to_string(), "HTTP/1.1 201 Created\r\n\r\n");
    let r = route("GET /files/report.txt HTTP/1.1\r\n\r\n", &mut store);
    assert_eq!(r.status, HTTPResponseStatus::OK);
    assert_eq!(r.body, Some("hello".to_string()));
    assert_eq!(header_of(&r, "Content-Type"), Some("application/octet-stream".to_string()));
    assert_eq!(header_of(&r, "Content-Length"), Some("5".to_string()));
}

#[test]
fn posted_file_is_overwritten() {
    let mut store = MemoryStore::new();
    route("POST /files/a HTTP/1.1\r\n\r\none", &mut store);
    route("POST /files/a HTTP/1.1\r\n\r\ntwo", &mut store);
    let r = route("GET /files/a HTTP/1.1\r\n\r\n", &mut store);
    assert_eq!(r.body, Some("two".to_string()));
}

#[test]
fn post_without_body_is_not_found() {
    let mut store = MemoryStore::new();
    let r = route("POST /files/a HTTP/1.1\r\n\r\n", &mut store);
    assert_eq!(r.status, HTTPResponseStatus::NotFound);
    assert_eq!(store.read("a"), None);
}

#[test]
fn missing_file_is_not_found() {
    let mut store = MemoryStore::new();
    let r = route("GET /files/missing.txt HTTP/1.1\r\n\r\n", &mut store);
    assert_eq!(r.status, HTTPResponseStatus::NotFound);
}

#[test]
fn unknown_route_is_not_found() {
    let mut store = MemoryStore::new();
    let r = route("GET /nope HTTP/1.1\r\n\r\n", &mut store);
    assert_eq!(r.status, HTTPResponseStatus::NotFound);
    assert!(r.header.is_none());
    assert!(r.body.is_none());
    assert_eq!(r.to_string(), "HTTP/1.1 404 Not Found\r\n\r\n");
    let r = route("PUT /echo/a HTTP/1.1\r\n\r\n", &mut store);
    assert_eq!(r.status, HTTPResponseStatus::NotFound);
    let r = route("GET /user-agent/x HTTP/1.1\r\nUser-Agent: a\r\n\r\n", &mut store);
    assert_eq!(r.status, HTTPResponseStatus::NotFound);
}

#[test]
fn plan_names_the_file() {
    let q = request("GET /files/dir/a.txt HTTP/1.1\r\n\r\n");
    assert!(matches!(plan_route(&q), RouteAction::ReadFile(n) if n == "dir/a.txt"));
    let q = request("POST /files/b HTTP/1.1\r\n\r\nxyz");
    assert!(matches!(plan_route(&q), RouteAction::WriteFile(n, c) if n == "b" && c == "xyz"));
}

#[test]
fn store_outcomes_become_responses() {
    let r = respond_to_read(Some("data".to_string()));
    assert_eq!(r.status, HTTPResponseStatus::OK);
    assert_eq!(r.body, Some("data".to_string()));
    assert_eq!(respond_to_read(None).status, HTTPResponseStatus::NotFound);
    assert_eq!(respond_to_write(Ok(())).status, HTTPResponseStatus::Created);
    assert_eq!(respond_to_write(Err(StoreError)).status, HTTPResponseStatus::NotFound);
}

#[test]
fn serializing_twice_is_identical() {
    let r = make_http_200_return_file("bytes".to_string());
    let a = r.to_string();
    let b = r.to_string();
    assert_eq!(a, b);
    assert_eq!(
        a,
        "HTTP/1.1 200 OK\r\nContent-Type: application/octet-stream\r\nContent-Length: 5\r\n\r\nbytes\r\n"
    );
}

#[test]
fn status_lines() {
    assert_eq!(make_http_404_not_found().to_string(), "HTTP/1.1 404 Not Found\r\n\r\n");
    assert_eq!(make_http_empty(HTTPResponseStatus::ImATeapot).to_string(), "HTTP/1.1 418 I'm a teapot\r\n\r\n");
    assert_eq!(HTTPResponseStatus::Created.as_str(), "HTTP/1.1 201 Created\r\n");
}

#[test]
fn text_response_with_large_length() {
    let body = "x".repeat(1234);
    let r = make_http_200_return_text(body);
    assert_eq!(header_of(&r, "Content-Length"), Some("1234".to_string()));
}

#[test]
fn header_map_keeps_order_and_overwrites() {
    let mut h = HeaderMap::new();
    h.insert("b".to_string(), "1".to_string());
    h.insert("a".to_string(), "2".to_string());
    h.insert("b".to_string(), "3".to_string());
    assert_eq!(h.len(), 2);
    let (k0, v0) = h.entry(0);
    assert_eq!((k0.as_str(), v0.as_str()), ("b", "3"));
    assert_eq!(h.get("a"), Some("2".to_string()));
    assert_eq!(h.get("c"), None);
}

#[test]
fn rebuilt_path_routes_the_same() {
    let mut store = MemoryStore::new();
    let a = route("GET //echo/x//y/ HTTP/1.1\r\n\r\n", &mut store);
    let b = route("GET /echo/x/y HTTP/1.1\r\n\r\n", &mut store);
    assert_eq!(a.to_string(), b.to_string());
    let c = route("GET //echo/x//y/ HTTP/1.1\r\n\r\n", &mut store);
    assert_eq!(a.to_string(), c.to_string());
}

#[test]
fn memory_store_write_then_read() {
    let mut store = MemoryStore::new();
    assert_eq!(store.read("f"), None);
    store.write("f", "one");
    store.write("g", "two");
    assert_eq!(store.read("f"), Some("one".to_string()));
    assert_eq!(store.read("g"), Some("two".to_string()));
}

#[test]
fn memory_serve_post_then_get() {
    let mut store = MemoryStore::new();
    let r = store.serve(request("POST /files/report.txt HTTP/1.1\r\n\r\nhello"));
    assert_eq!(r.status, HTTPResponseStatus::Created);
    let r = store.serve(request("GET /files/report.txt HTTP/1.1\r\n\r\n"));
    assert_eq!(r.status, HTTPResponseStatus::OK);
    assert_eq!(r.body, Some("hello".to_string()));
    assert_eq!(header_of(&r, "Content-Type"), Some("application/octet-stream".to_string()));
}

#[test]
fn memory_serve_missing_file() {
    let mut store = MemoryStore::new();
    let r = store.serve(request("GET /files/missing.txt HTTP/1.1\r\n\r\n"));
    assert_eq!(r.status, HTTPResponseStatus::NotFound);
    assert!(r.header.is_none());
    assert!(r.body.is_none());
    assert_eq!(store.read("missing.txt"), None);
}

#[test]
fn reads_leave_the_store_alone() {
    let mut store = MemoryStore::new();
    store.write("a", "1");
    route("GET /files/a HTTP/1.1\r\n\r\n", &mut store);
    route("GET /files/b HTTP/1.1\r\n\r\n", &mut store);
    assert_eq!(store.read("a"), Some("1".to_string()));
    assert_eq!(store.read("b"), None);
}

#[test]
fn decimal_digits() {
    assert_eq!(decimal_text(0), "0");
    assert_eq!(decimal_text(9), "9");
    assert_eq!(decimal_text(10), "10");
    assert_eq!(decimal_text(1234), "1234");
    assert_eq!(decimal_text(usize::MAX), usize::MAX.to_string());
}
