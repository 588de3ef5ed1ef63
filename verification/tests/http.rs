//! Requests and what goes back.
use pacpurge::web;

/// The document the stub server answers `/api/inventory` with.
const STUB: &str = r#"{"summary":{"packages":1},"inventory":{"entries":[]}}"#;

/// The port that the server is told it is bound to.
fn serve(_count: usize) -> u16 {
    8080
}

/// Hand one raw request over as it would arrive, piece by piece, and give the
/// whole reply.
fn request(port: u16, raw: &str) -> String {
    let mut head: Vec<u8> = Vec::new();
    for chunk in raw.as_bytes().chunks(7) {
        if !web::wants_more(&head, web::MAX_HEAD) {
            break;
        }
        head.extend_from_slice(chunk);
    }
    let text = String::from_utf8_lossy(&head).into_owned();
    let reply = match web::canned(web::route(&text, port)) {
        Some(canned) => web::response(canned.status, canned.content_type, canned.body.as_bytes()),
        None => web::response("200 OK", "application/json; charset=utf-8", STUB.as_bytes()),
    };
    String::from_utf8_lossy(&reply).into_owned()
}

/// A well-formed GET for `path`, addressed to this server.
fn get(port: u16, path: &str) -> String {
    format!("GET {path} HTTP/1.1\r\nHost: 127.0.0.1:{port}\r\nAccept: */*\r\n\r\n")
}

#[test]
fn the_page_and_its_assets_are_served() {
    let port = serve(3);

    let page = request(port, &get(port, "/"));
    assert!(page.starts_with("HTTP/1.1 200 OK\r\n"), "got: {page}");
    assert!(page.contains("text/html"), "got: {page}");
    assert!(page.contains("<title>pacpurge</title>"), "got: {page}");

    let script = request(port, &get(port, "/app.js"));
    assert!(script.contains("text/javascript"), "got: {script}");
    assert!(script.contains("/api/inventory"), "got: {script}");

    let style = request(port, &get(port, "/style.css"));
    assert!(style.contains("text/css"), "got: {style}");
}

#[test]
fn the_inventory_endpoint_answers_with_the_document() {
    let port = serve(1);

    let reply = request(port, &get(port, "/api/inventory"));
    assert!(reply.contains("application/json"), "got: {reply}");
    assert!(reply.ends_with(STUB), "got: {reply}");
}

#[test]
fn a_request_from_another_name_is_refused() {
    let port = serve(1);

    // A page on the internet pointing a script at a hostname that resolves to
    // 127.0.0.1 reaches this socket. The Host header is what gives it away.
    let rebound = format!("GET /api/inventory HTTP/1.1\r\nHost: evil.example.com:{port}\r\n\r\n");
    let reply = request(port, &rebound);
    assert!(
        reply.starts_with("HTTP/1.1 403 Forbidden\r\n"),
        "got: {reply}"
    );
    assert!(!reply.contains("packages"), "the body leaked: {reply}");
}

#[test]
fn nothing_that_could_change_the_system_is_answered() {
    let port = serve(2);

    for verb in ["POST", "DELETE"] {
        let reply = request(
            port,
            &format!("{verb} /api/inventory HTTP/1.1\r\nHost: 127.0.0.1:{port}\r\n\r\n"),
        );
        assert!(
            reply.starts_with("HTTP/1.1 400 Bad Request\r\n"),
            "{verb} got: {reply}"
        );
    }
}

#[test]
fn an_unknown_path_is_a_clean_404() {
    let port = serve(1);

    let reply = request(port, &get(port, "/../../../etc/shadow"));
    assert!(
        reply.starts_with("HTTP/1.1 404 Not Found\r\n"),
        "got: {reply}"
    );
}
