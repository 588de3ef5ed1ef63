//! The web interface: routing and response building, with no socket in sight.
//!
//! The server exists because the analysis is already a JSON document and every
//! Arch desktop already has a browser. Rendering it in one costs three static
//! files and no dependency; the alternative — linking a GUI toolkit — costs a
//! webview or a widget set, which on a tool whose entire purpose is reclaiming
//! disk space would be an odd thing to make people install.
//!
//! This module only decides what a request means and what bytes go back.
use vstd::prelude::*;

use crate::number;
use crate::number::{count, number};
use crate::split;
use crate::split::{before_first, split_lines, split_once, split_words};
use crate::text;
use crate::text::{chars_of, concat2, concat3, same, trimmed};

verus! {

/// The page itself.
pub const INDEX: &'static str = "<!doctype html>
<html lang=\"en\">
<head>
<meta charset=\"utf-8\">
<title>pacpurge</title>
<link rel=\"stylesheet\" href=\"/style.css\">
</head>
<body>
<h1>pacpurge</h1>
<p id=\"summary\">scanning…</p>
<table>
<thead><tr><th>package</th><th>size</th><th>frees</th></tr></thead>
<tbody id=\"packages\"></tbody>
</table>
<script src=\"/app.js\"></script>
</body>
</html>
";

/// Its stylesheet.
pub const STYLE: &'static str = "body { font-family: sans-serif; margin: 2rem; }
table { border-collapse: collapse; }
th, td { padding: 0.2rem 0.8rem; text-align: right; }
th:first-child, td:first-child { text-align: left; }
";

/// Its script.
pub const SCRIPT: &'static str = "fetch('/api/inventory')
  .then((reply) => reply.json())
  .then((report) => {
    document.getElementById('summary').textContent =
      report.summary.packages + ' packages, ' + report.summary.installed_bytes + ' bytes installed';
    const rows = document.getElementById('packages');
    for (const entry of report.inventory.entries) {
      const row = rows.insertRow();
      for (const value of [entry.package.name, entry.package.size, entry.facts.reclaimable]) {
        row.insertCell().textContent = value;
      }
    }
  });
";

/// The largest request head worth reading, in bytes.
///
/// A browser sends well under this. Anything larger is not a browser, and the
/// server would rather answer it than keep reading it.
pub const MAX_HEAD: usize = 8_192;

/// What a request was asking for.
#[derive(Clone, Copy, Debug, PartialEq, Eq, Structural)]
pub enum Route {
    /// The page.
    Index,
    /// The stylesheet.
    Style,
    /// The script.
    Script,
    /// The analysis, as the same JSON document `--json` prints.
    Inventory,
    /// A path this server does not have.
    NotFound,
    /// Something that did not parse as a request this server answers.
    BadRequest,
    /// A request that parsed but was addressed to somebody else.
    ///
    /// The server binds loopback only, but a page on the public internet can
    /// still point a script at `http://<name-that-resolves-to-127.0.0.1>:8080`
    /// and read the reply. Checking the `Host` header is what stops it: a
    /// browser sends the name it dialled, and this server answers only to its
    /// own two.
    Forbidden,
}

/// A response that needs no scan: everything except the inventory.
#[derive(Clone, Copy, Debug, PartialEq, Eq)]
pub struct Canned {
    /// HTTP status line text, e.g. `200 OK`.
    pub status: &'static str,
    /// Value for the `Content-Type` header.
    pub content_type: &'static str,
    /// The body.
    pub body: &'static str,
}

// ---------------------------------------------------------------------------
// Requests
// ---------------------------------------------------------------------------

/// A character with the case of an ASCII letter left out.
pub open spec fn folded(c: char) -> int {
    if 'A' <= c <= 'Z' {
        c as int + 32
    } else {
        c as int
    }
}

/// Whether two texts are the same but for the case of ASCII letters.
pub open spec fn same_but_case(a: Seq<char>, b: Seq<char>) -> bool {
    a.len() == b.len() && forall|i: int| 0 <= i < a.len() ==> folded(#[trigger] a[i]) == folded(b[i])
}

/// A character with the case of an ASCII letter left out.
fn fold(c: char) -> (r: char)
    ensures
        r as int == folded(c),
{
    if 'A' <= c && c <= 'Z' {
        (c as u8 + 32) as char
    } else {
        c
    }
}

/// `str::eq_ignore_ascii_case`.
pub fn same_ignoring_case(a: &str, b: &str) -> (r: bool)
    ensures
        r == same_but_case(a@, b@),
{
    let v = chars_of(a);
    let w = chars_of(b);
    if v.len() != w.len() {
        return false;
    }
    let mut i: usize = 0;
    while i < v.len()
        invariant
            i <= v.len(),
            v@ == a@,
            w@ == b@,
            v.len() == w.len(),
            forall|j: int| 0 <= j < i ==> folded(#[trigger] a@[j]) == folded(b@[j]),
        decreases v.len() - i,
    {
        let c = fold(v[i]);
        let d = fold(w[i]);
        if c != d {
            assert(folded(a@[i as int]) != folded(b@[i as int]));
            return false;
        }
        i += 1;
    }
    true
}

/// The value of a header among the lines of a head, the first of that name.
pub open spec fn header_in(lines: Seq<Seq<char>>, name: Seq<char>) -> Option<Seq<char>>
    decreases lines.len(),
{
    if lines.len() == 0 {
        None
    } else {
        match split::split_once_at(lines[0], ':') {
            Some((key, value)) => if same_but_case(text::trim(key), name) {
                Some(text::trim(value))
            } else {
                header_in(lines.skip(1), name)
            },
            None => header_in(lines.skip(1), name),
        }
    }
}

/// The value of a header in a request head: behind the request line.
pub open spec fn header_of(head: Seq<char>, name: Seq<char>) -> Option<Seq<char>> {
    if split::lines(head).len() == 0 {
        None
    } else {
        header_in(split::lines(head).skip(1), name)
    }
}

/// The value of a header, matched case-insensitively.
pub fn header(head: &str, name: &str) -> (r: Option<String>)
    ensures
        crate::scan::optional_text(r) == header_of(head@, name@),
{
    let lines = split_lines(head);
    let ghost all = split::lines(head@);
    let ghost found = header_of(head@, name@);
    let mut i: usize = 1;
    assert(all.len() == lines.len());
    if lines.len() == 0 {
        return None;
    }
    while i < lines.len()
        invariant
            1 <= i <= lines.len(),
            text::texts(lines@) == all,
            all == split::lines(head@),
            all.len() == lines.len(),
            found == header_of(head@, name@),
            header_in(all.skip(i as int), name@) == found,
        decreases lines.len() - i,
    {
        let ghost rest = all.skip(i as int);
        proof {
            assert(rest[0] == lines@[i as int]@);
            assert(rest.skip(1) =~= all.skip(i + 1));
        }
        match split_once(lines[i].as_str(), ':') {
            Some((key, value)) => {
                if same_ignoring_case(trimmed(key), name) {
                    return Some(trimmed(value).to_owned());
                }
            },
            None => {},
        }
        i += 1;
    }
    assert(all.skip(i as int).len() == 0);
    None
}

/// Whether a request names this server in its `Host` header, by one of its two
/// names.
pub open spec fn is_local(head: Seq<char>, port: u16) -> bool {
    match header_of(head, "host"@) {
        Some(host) => {
            ||| host == "127.0.0.1:"@ + number::decimal(port as nat)
            ||| host == "localhost:"@ + number::decimal(port as nat)
        },
        None => false,
    }
}

/// Whether the `Host` header names this server rather than one that merely
/// resolves to it.
///
/// HTTP/1.1 requires the header. Something that omits it is not the browser
/// this server is for.
pub fn host_is_local(head: &str, port: u16) -> (r: bool)
    ensures
        r == is_local(head@, port),
{
    let host = match header(head, "host") {
        Some(host) => host,
        None => {
            return false;
        },
    };
    let port = number(port as u64);
    same(host.as_str(), concat2("127.0.0.1:", port.as_str()).as_str()) || same(
        host.as_str(),
        concat2("localhost:", port.as_str()).as_str(),
    )
}

/// What a path names.
pub open spec fn page_at(path: Seq<char>) -> Route {
    if path == "/"@ || path == "/index.html"@ {
        Route::Index
    } else if path == "/style.css"@ {
        Route::Style
    } else if path == "/app.js"@ {
        Route::Script
    } else if path == "/api/inventory"@ {
        Route::Inventory
    } else {
        Route::NotFound
    }
}

/// What a request head asks for: a `GET` of a path, addressed to this server.
/// A query behind the path does not matter.
pub open spec fn route_of(head: Seq<char>, port: u16) -> Route {
    let lines = split::lines(head);
    let fields = split::words(lines[0]);
    if lines.len() == 0 || fields.len() < 2 || fields[0] != "GET"@ {
        Route::BadRequest
    } else if !is_local(head, port) {
        Route::Forbidden
    } else {
        page_at(split::split_on(fields[1], '?')[0])
    }
}

/// Decide what a request head is asking for.
///
/// `port` is the port the listener actually bound, which is not always the one
/// that was asked for: port 0 takes whatever is free.
pub fn route(head: &str, port: u16) -> (r: Route)
    ensures
        r == route_of(head@, port),
{
    let lines = split_lines(head);
    let ghost all = split::lines(head@);
    assert(all.len() == lines.len());
    if lines.len() == 0 {
        return Route::BadRequest;
    }
    assert(all[0] == lines@[0]@);
    let fields = split_words(lines[0].as_str());
    assert(split::words(all[0]).len() == fields.len());
    if fields.len() < 2 {
        return Route::BadRequest;
    }
    assert(split::words(all[0])[0] == fields@[0]@);
    assert(split::words(all[0])[1] == fields@[1]@);
    // Read-only by construction. A verb that implies a change is refused
    // rather than quietly treated as a GET.
    if !same(fields[0].as_str(), "GET") {
        return Route::BadRequest;
    }
    if !host_is_local(head, port) {
        return Route::Forbidden;
    }
    let path = before_first(fields[1].as_str(), '?');
    if same(path, "/") || same(path, "/index.html") {
        Route::Index
    } else if same(path, "/style.css") {
        Route::Style
    } else if same(path, "/app.js") {
        Route::Script
    } else if same(path, "/api/inventory") {
        Route::Inventory
    } else {
        Route::NotFound
    }
}

/// Whether bytes hold the blank line that ends a request head.
pub open spec fn holds_blank_line(bytes: Seq<u8>) -> bool {
    exists|i: int|
        0 <= i && i + 4 <= bytes.len() && #[trigger] bytes.subrange(i, i + 4) == seq![
            13u8,
            10u8,
            13u8,
            10u8,
        ]
}

/// Whether to go on reading a request head: it has not ended, and it is not
/// longer than is worth reading.
pub fn wants_more(head: &Vec<u8>, limit: usize) -> (r: bool)
    ensures
        r == (head@.len() < limit && !holds_blank_line(head@)),
{
    if head.len() >= limit {
        return false;
    }
    let mut i: usize = 0;
    while i < head.len() && head.len() - i >= 4
        invariant
            i <= head.len(),
            forall|j: int|
                0 <= j < i && j + 4 <= head@.len() ==> #[trigger] head@.subrange(j, j + 4) != seq![
                    13u8,
                    10u8,
                    13u8,
                    10u8,
                ],
        decreases head.len() - i,
    {
        let ghost window = head@.subrange(i as int, i + 4);
        let ended = head[i] == 13 && head[i + 1] == 10 && head[i + 2] == 13 && head[i + 3] == 10;
        proof {
            let blank = seq![13u8, 10u8, 13u8, 10u8];
            assert(window[0] == head@[i as int]);
            assert(window[1] == head@[i + 1]);
            assert(window[2] == head@[i + 2]);
            assert(window[3] == head@[i + 3]);
            if ended {
                assert(window =~= blank);
            } else {
                assert(window != blank) by {
                    assert(blank[0] == 13 && blank[1] == 10 && blank[2] == 13 && blank[3] == 10);
                }
            }
        }
        if ended {
            return false;
        }
        i += 1;
    }
    true
}

// ---------------------------------------------------------------------------
// Responses
// ---------------------------------------------------------------------------

/// The response for every route that does not need a scan.
///
/// [`Route::Inventory`] is the exception: it is answered by the caller, which
/// is the only part of the program allowed to touch a filesystem.
pub fn canned(route: Route) -> (r: Option<Canned>)
    ensures
        (r is None) == (route == Route::Inventory),
        r matches Some(canned) ==> {
            &&& canned.status@ == (match route {
                Route::NotFound => "404 Not Found"@,
                Route::BadRequest => "400 Bad Request"@,
                Route::Forbidden => "403 Forbidden"@,
                _ => "200 OK"@,
            })
            &&& canned.content_type@ == (match route {
                Route::Index => "text/html; charset=utf-8"@,
                Route::Style => "text/css; charset=utf-8"@,
                Route::Script => "text/javascript; charset=utf-8"@,
                _ => "text/plain; charset=utf-8"@,
            })
            &&& canned.body@ == (match route {
                Route::Index => INDEX@,
                Route::Style => STYLE@,
                Route::Script => SCRIPT@,
                Route::NotFound => "not found\n"@,
                Route::BadRequest => "this server answers GET requests only\n"@,
                _ => "this server answers to localhost only\n"@,
            })
        },
{
    match route {
        Route::Index => Some(
            Canned { status: "200 OK", content_type: "text/html; charset=utf-8", body: INDEX },
        ),
        Route::Style => Some(
            Canned { status: "200 OK", content_type: "text/css; charset=utf-8", body: STYLE },
        ),
        Route::Script => Some(
            Canned {
                status: "200 OK",
                content_type: "text/javascript; charset=utf-8",
                body: SCRIPT,
            },
        ),
        Route::NotFound => Some(
            Canned {
                status: "404 Not Found",
                content_type: "text/plain; charset=utf-8",
                body: "not found\n",
            },
        ),
        Route::BadRequest => Some(
            Canned {
                status: "400 Bad Request",
                content_type: "text/plain; charset=utf-8",
                body: "this server answers GET requests only\n",
            },
        ),
        Route::Forbidden => Some(
            Canned {
                status: "403 Forbidden",
                content_type: "text/plain; charset=utf-8",
                body: "this server answers to localhost only\n",
            },
        ),
        Route::Inventory => None,
    }
}

/// The head of a response with a body of `length` bytes.
pub open spec fn response_head(
    status: Seq<char>,
    content_type: Seq<char>,
    length: nat,
) -> Seq<char> {
    "HTTP/1.1 "@ + status + "\r\nContent-Type: "@ + content_type + "\r\nContent-Length: "@
        + number::decimal(length)
        + "\r\nCache-Control: no-store\r\nX-Content-Type-Options: nosniff\r\nContent-Security-Policy: default-src 'self'\r\nConnection: close\r\n\r\n"@
}

/// Build a complete HTTP/1.1 response.
///
/// Every response closes the connection. Keeping it open would mean tracking
/// state per client to save a socket on a server with exactly one user.
pub fn response(status: &str, content_type: &str, body: &[u8]) -> (r: Vec<u8>)
    ensures
        r@ == vstd::utf8::encode_utf8(response_head(status@, content_type@, body@.len())) + body@,
{
    let mut head = concat3("HTTP/1.1 ", status, "\r\nContent-Type: ");
    head.append(content_type);
    head.append("\r\nContent-Length: ");
    head.append(count(body.len()).as_str());
    head.append(
        "\r\nCache-Control: no-store\r\nX-Content-Type-Options: nosniff\r\nContent-Security-Policy: default-src 'self'\r\nConnection: close\r\n\r\n",
    );
    let mut bytes = head.as_str().as_bytes_vec();
    let ghost front = bytes@;
    let mut i: usize = 0;
    assert(front + body@.take(0) =~= front);
    while i < body.len()
        invariant
            i <= body.len(),
            bytes@ == front + body@.take(i as int),
        decreases body.len() - i,
    {
        bytes.push(body[i]);
        assert(front + body@.take(i + 1) =~= (front + body@.take(i as int)).push(body@[i as int]));
        i += 1;
    }
    assert(body@.take(body@.len() as int) =~= body@);
    bytes
}

/// The address to print once the listener is up.
pub fn address(port: u16) -> (r: String)
    ensures
        r@ == "http://127.0.0.1:"@ + number::decimal(port as nat) + "/"@,
{
    concat3("http://127.0.0.1:", number(port as u64).as_str(), "/")
}

// ---------------------------------------------------------------------------
// Laws
// ---------------------------------------------------------------------------

/// Nothing is served to a request that is not addressed to this server, or
/// that is anything but a `GET`.
pub proof fn only_local_gets_are_served(head: Seq<char>, port: u16)
    ensures
        route_of(head, port) != Route::BadRequest && route_of(head, port) != Route::Forbidden ==> {
            &&& is_local(head, port)
            &&& split::lines(head).len() > 0
            &&& split::words(split::lines(head)[0]).len() >= 2
            &&& split::words(split::lines(head)[0])[0] == "GET"@
        },
{
}

/// Two heads that differ in nothing but the query behind the path ask for the
/// same thing.
pub proof fn queries_do_not_matter(a: Seq<char>, b: Seq<char>, port: u16)
    requires
        split::lines(a).len() > 0,
        split::lines(b).len() > 0,
        split::lines(a).skip(1) == split::lines(b).skip(1),
        split::words(split::lines(a)[0]).len() >= 2,
        split::words(split::lines(b)[0]).len() >= 2,
        split::words(split::lines(a)[0])[0] == split::words(split::lines(b)[0])[0],
        split::split_on(split::words(split::lines(a)[0])[1], '?')[0] == split::split_on(
            split::words(split::lines(b)[0])[1],
            '?',
        )[0],
    ensures
        route_of(a, port) == route_of(b, port),
{
}

} // verus!
