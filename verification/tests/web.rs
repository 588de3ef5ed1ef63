//! The local web server.
use pacpurge::web::{address, canned, header, host_is_local, response, route, same_ignoring_case, wants_more, Route};

fn get(path: &str, host: &str) -> String {
    format!("GET {path} HTTP/1.1\r\nHost: {host}\r\nAccept: */*\r\n\r\n")
}

#[test]
fn the_page_and_its_assets_are_routed() {
    assert_eq!(route(&get("/", "127.0.0.1:8080"), 8080), Route::Index);
    assert_eq!(
        route(&get("/index.html", "localhost:8080"), 8080),
        Route::Index
    );
    assert_eq!(
        route(&get("/style.css", "localhost:8080"), 8080),
        Route::Style
    );
    assert_eq!(
        route(&get("/app.js", "localhost:8080"), 8080),
        Route::Script
    );
    assert_eq!(
        route(&get("/api/inventory", "localhost:8080"), 8080),
        Route::Inventory
    );
}

#[test]
fn a_query_string_does_not_change_the_route() {
    assert_eq!(
        route(&get("/api/inventory?t=1712", "localhost:8080"), 8080),
        Route::Inventory
    );
}

#[test]
fn an_unknown_path_is_not_found() {
    assert_eq!(
        route(&get("/etc/passwd", "localhost:8080"), 8080),
        Route::NotFound
    );
    assert_eq!(
        route(&get("/../../etc/shadow", "localhost:8080"), 8080),
        Route::NotFound
    );
}

#[test]
fn nothing_but_get_is_answered() {
    let head = "POST /api/inventory HTTP/1.1\r\nHost: localhost:8080\r\n\r\n";
    assert_eq!(route(head, 8080), Route::BadRequest);
    assert_eq!(route("", 8080), Route::BadRequest);
    assert_eq!(route("nonsense\r\n\r\n", 8080), Route::BadRequest);
}

#[test]
fn a_host_this_server_does_not_answer_to_is_refused() {
    // The shape of a DNS rebinding attempt: a name that resolves to
    // 127.0.0.1, dialled from a page the user did not open.
    assert_eq!(
        route(&get("/api/inventory", "evil.example.com:8080"), 8080),
        Route::Forbidden
    );
    // The right name on the wrong port is somebody else's server.
    assert_eq!(
        route(&get("/api/inventory", "localhost:9999"), 8080),
        Route::Forbidden
    );
    // HTTP/1.1 requires a Host header; a request without one is not a
    // browser this server is for.
    assert_eq!(
        route("GET / HTTP/1.1\r\nAccept: */*\r\n\r\n", 8080),
        Route::Forbidden
    );
}

#[test]
fn the_host_header_is_matched_case_insensitively() {
    let head = "GET / HTTP/1.1\r\nHOST: localhost:8080\r\n\r\n";
    assert_eq!(route(head, 8080), Route::Index);
}

#[test]
fn every_route_but_the_inventory_answers_itself() {
    for route in [
        Route::Index,
        Route::Style,
        Route::Script,
        Route::NotFound,
        Route::BadRequest,
        Route::Forbidden,
    ] {
        assert!(canned(route).is_some(), "{route:?} has no canned response");
    }
    assert!(canned(Route::Inventory).is_none());
}

#[test]
fn a_response_states_its_length_and_closes() {
    let bytes = response("200 OK", "text/plain; charset=utf-8", b"hello");
    let text = String::from_utf8_lossy(&bytes).into_owned();
    assert!(text.starts_with("HTTP/1.1 200 OK\r\n"));
    assert!(text.contains("Content-Length: 5\r\n"));
    assert!(text.contains("Connection: close\r\n"));
    assert!(text.ends_with("\r\n\r\nhello"));
}

#[test]
fn the_printed_address_is_loopback() {
    assert_eq!(address(8080), "http://127.0.0.1:8080/");
}

#[test]
fn headers_are_found_whatever_their_case() {
    let head = "GET / HTTP/1.1\r\nX: y\r\nHoSt :  localhost:80 \r\n\r\n";
    assert_eq!(header(head, "host"), Some("localhost:80".to_owned()));
    assert_eq!(header(head, "accept"), None);
    // The request line is no header.
    assert_eq!(header("host: x\r\n", "host"), None);
    assert!(same_ignoring_case("HOST", "host"));
    assert!(!same_ignoring_case("HOST", "hosts"));
    assert!(!same_ignoring_case("\u{c9}", "\u{e9}"));
}

#[test]
fn only_the_local_names_are_answered_to() {
    let head = |host: &str| format!("GET / HTTP/1.1\r\nHost: {host}\r\n\r\n");
    assert!(host_is_local(&head("127.0.0.1:80"), 80));
    assert!(host_is_local(&head("localhost:80"), 80));
    assert!(!host_is_local(&head("[::1]:80"), 80));
    assert_eq!(route(&head("[::1]:8080"), 8080), Route::Forbidden);
    assert!(!host_is_local(&head("localhost"), 80));
    assert!(!host_is_local(&head("LOCALHOST:80"), 80));
}

#[test]
fn a_request_head_ends_at_an_empty_line() {
    assert!(wants_more(&b"GET / HTTP/1.1\r\n\r".to_vec(), 100));
    assert!(!wants_more(&b"GET / HTTP/1.1\r\n\r\n".to_vec(), 100));
    assert!(!wants_more(&b"GET /".to_vec(), 5));
    assert!(wants_more(&Vec::new(), 5));
}

#[test]
fn a_response_is_exactly_these_bytes() {
    let bytes = response("404 Not Found", "text/plain", b"no\n");
    assert_eq!(
        String::from_utf8_lossy(&bytes),
        "HTTP/1.1 404 Not Found\r\nContent-Type: text/plain\r\nContent-Length: 3\r\n\
         Cache-Control: no-store\r\nX-Content-Type-Options: nosniff\r\n\
         Content-Security-Policy: default-src 'self'\r\nConnection: close\r\n\r\nno\n"
    );
}
