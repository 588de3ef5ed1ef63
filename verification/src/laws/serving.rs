//! What the web interface answers.
use vstd::prelude::*;

use crate::number;
use crate::split;
use crate::text;
use crate::web;
use crate::web::Route;

verus! {

/// Whether a line of a request names the host that is asked.
pub open spec fn names_host(line: Seq<char>, host: Seq<char>) -> bool {
    exists|key: Seq<char>, value: Seq<char>|
        #![trigger text::trim(key), text::trim(value)]
        line == key + seq![':'] + value && !key.contains(':') && text::trim(value) == host
            && is_host_name(text::trim(key))
}

/// Whether a name is that of the header for the host, in capitals or not.
pub open spec fn is_host_name(name: Seq<char>) -> bool {
    &&& name.len() == 4
    &&& name[0] == 'h' || name[0] == 'H'
    &&& name[1] == 'o' || name[1] == 'O'
    &&& name[2] == 's' || name[2] == 'S'
    &&& name[3] == 't' || name[3] == 'T'
}

/// Whether a line of a request gives no host, since it has no colon or another
/// name in front of it.
pub open spec fn names_no_host(line: Seq<char>) -> bool {
    ||| !line.contains(':')
    ||| exists|key: Seq<char>, value: Seq<char>|
        #![trigger text::trim(key), value.len()]
        line == key + seq![':'] + value && !key.contains(':') && !is_host_name(text::trim(key))
}

proof fn lemma_split_once(key: Seq<char>, value: Seq<char>)
    requires
        !key.contains(':'),
    ensures
        split::split_once_at(key + seq![':'] + value, ':') == Some((key, value)),
{
    let line = key + seq![':'] + value;
    let n = key.len() as int;
    assert(line[n] == ':');
    assert(line.contains(':'));
    line.index_of_first_ensures(':');
    let i = line.index_of_first(':').unwrap();
    if i < n {
        assert(line[i] == key[i]);
        assert(key.contains(key[i]));
    }
    assert(i == n);
    assert(line.take(i) =~= key);
    assert(line.skip(i + 1) =~= value);
}

proof fn lemma_host_line(line: Seq<char>, host: Seq<char>)
    requires
        names_host(line, host),
    ensures
        exists|key: Seq<char>, value: Seq<char>|
            split::split_once_at(line, ':') == Some((key, value)) && #[trigger] web::same_but_case(
                text::trim(key),
                "host"@,
            ) && #[trigger] text::trim(value) == host,
{
    reveal_strlit("host");
    let (key, value) = choose|key: Seq<char>, value: Seq<char>|
        #![trigger text::trim(key), text::trim(value)]
        line == key + seq![':'] + value && !key.contains(':') && text::trim(value) == host
            && is_host_name(text::trim(key));
    lemma_split_once(key, value);
    assert(web::same_but_case(text::trim(key), "host"@));
}

proof fn lemma_other_line(line: Seq<char>)
    requires
        names_no_host(line),
    ensures
        match split::split_once_at(line, ':') {
            Some((key, _)) => !web::same_but_case(text::trim(key), "host"@),
            None => true,
        },
{
    reveal_strlit("host");
    if line.contains(':') {
        let (key, value) = choose|key: Seq<char>, value: Seq<char>|
            #![trigger text::trim(key), value.len()]
            line == key + seq![':'] + value && !key.contains(':') && !is_host_name(text::trim(key));
        lemma_split_once(key, value);
        let name = text::trim(key);
        if web::same_but_case(name, "host"@) {
            assert(web::folded(name[0]) == web::folded("host"@[0]));
            assert(web::folded(name[1]) == web::folded("host"@[1]));
            assert(web::folded(name[2]) == web::folded("host"@[2]));
            assert(web::folded(name[3]) == web::folded("host"@[3]));
        }
    }
}

proof fn lemma_host(lines: Seq<Seq<char>>, k: int, host: Seq<char>)
    requires
        0 <= k < lines.len(),
        names_host(lines[k], host),
        forall|i: int| 0 <= i < k ==> names_no_host(#[trigger] lines[i]),
    ensures
        web::header_in(lines, "host"@) == Some(host),
    decreases k,
{
    if k == 0 {
        lemma_host_line(lines[0], host);
    } else {
        assert(names_no_host(lines[0]));
        lemma_other_line(lines[0]);
        let rest = lines.skip(1);
        assert(rest[k - 1] == lines[k]);
        assert forall|i: int| 0 <= i < k - 1 implies names_no_host(#[trigger] rest[i]) by {
            assert(rest[i] == lines[i + 1]);
        }
        lemma_host(rest, k - 1, host);
    }
}

proof fn lemma_no_host(lines: Seq<Seq<char>>)
    requires
        forall|i: int| 0 <= i < lines.len() ==> names_no_host(#[trigger] lines[i]),
    ensures
        web::header_in(lines, "host"@) is None,
    decreases lines.len(),
{
    if lines.len() > 0 {
        assert(names_no_host(lines[0]));
        lemma_other_line(lines[0]);
        let rest = lines.skip(1);
        assert forall|i: int| 0 <= i < rest.len() implies names_no_host(#[trigger] rest[i]) by {
            assert(rest[i] == lines[i + 1]);
        }
        lemma_no_host(rest);
    }
}

/// Each path has its page, and no other path has any.
pub proof fn paths_lead_to_their_pages(path: Seq<char>)
    ensures
        path == "/"@ ==> web::page_at(path) == Route::Index,
        path == "/index.html"@ ==> web::page_at(path) == Route::Index,
        path == "/style.css"@ ==> web::page_at(path) == Route::Style,
        path == "/app.js"@ ==> web::page_at(path) == Route::Script,
        path == "/api/inventory"@ ==> web::page_at(path) == Route::Inventory,
        web::page_at(path) != Route::NotFound ==> path == "/"@ || path == "/index.html"@ || path
            == "/style.css"@ || path == "/app.js"@ || path == "/api/inventory"@,
        web::page_at(path) != Route::BadRequest && web::page_at(path) != Route::Forbidden,
{
    reveal_strlit("/");
    reveal_strlit("/index.html");
    reveal_strlit("/style.css");
    reveal_strlit("/app.js");
    reveal_strlit("/api/inventory");
    assert("/"@.len() == 1);
    assert("/index.html"@.len() == 11);
    assert("/style.css"@.len() == 10);
    assert("/app.js"@.len() == 7);
    assert("/api/inventory"@.len() == 14);
}

/// Whether a request is one for a path: its first line has the method and the
/// target in front, and the path stands before the query.
pub open spec fn asks_for(head: Seq<char>, path: Seq<char>, query: Seq<char>) -> bool {
    let lines = split::lines(head);
    let fields = split::words(lines[0]);
    &&& lines.len() > 0
    &&& fields.len() >= 2
    &&& fields[0] == "GET"@
    &&& !path.contains('?')
    &&& fields[1] == path || fields[1] == path + seq!['?'] + query
}

/// A request to this machine under one of its two names, with the port that is
/// served, gets its page. The first line that names a host counts.
pub proof fn local_requests_get_their_page(
    head: Seq<char>,
    path: Seq<char>,
    query: Seq<char>,
    port: u16,
    k: int,
    host: Seq<char>,
)
    requires
        asks_for(head, path, query),
        1 <= k < split::lines(head).len(),
        names_host(split::lines(head)[k], host),
        forall|i: int| 1 <= i < k ==> names_no_host(#[trigger] split::lines(head)[i]),
    ensures
        host == "127.0.0.1:"@ + number::decimal(port as nat) ==> web::route_of(head, port)
            == web::page_at(path),
        host == "localhost:"@ + number::decimal(port as nat) ==> web::route_of(head, port)
            == web::page_at(path),
        host != "127.0.0.1:"@ + number::decimal(port as nat) && host != "localhost:"@
            + number::decimal(port as nat) ==> web::route_of(head, port) == Route::Forbidden,
{
    let lines = split::lines(head);
    let rest = lines.skip(1);
    assert(rest[k - 1] == lines[k]);
    assert forall|i: int| 0 <= i < k - 1 implies names_no_host(#[trigger] rest[i]) by {
        assert(rest[i] == lines[i + 1]);
    }
    lemma_host(rest, k - 1, host);
    let target = split::words(lines[0])[1];
    let p = text::just('?');
    let n = path.len() as int;
    assert forall|j: int| 0 <= j < n implies !p(#[trigger] target[j]) by {
        assert(target[j] == path[j]);
        assert(path.contains(path[j]));
    }
    if target != path {
        assert(target[n] == '?');
    }
    split::lemma_split_first(target, p, n);
    assert(target.take(n) =~= path);
}

/// A request that names no host is refused, and one that is no request for a
/// path is a bad one.
pub proof fn strangers_get_nothing(head: Seq<char>, path: Seq<char>, query: Seq<char>, port: u16)
    ensures
        asks_for(head, path, query) && (forall|i: int|
            1 <= i < split::lines(head).len() ==> names_no_host(#[trigger] split::lines(head)[i]))
            ==> web::route_of(head, port) == Route::Forbidden,
        split::lines(head).len() == 0 ==> web::route_of(head, port) == Route::BadRequest,
        split::words(split::lines(head)[0]).len() < 2 ==> web::route_of(head, port)
            == Route::BadRequest,
        split::words(split::lines(head)[0])[0] == "POST"@ ==> web::route_of(head, port)
            == Route::BadRequest,
        split::words(split::lines(head)[0])[0] != "GET"@ ==> web::route_of(head, port)
            == Route::BadRequest,
{
    reveal_strlit("GET");
    reveal_strlit("POST");
    assert("GET"@.len() == 3 && "POST"@.len() == 4);
    let lines = split::lines(head);
    if asks_for(head, path, query) && (forall|i: int|
        1 <= i < lines.len() ==> names_no_host(#[trigger] lines[i])) {
        let rest = lines.skip(1);
        assert forall|i: int| 0 <= i < rest.len() implies names_no_host(#[trigger] rest[i]) by {
            assert(rest[i] == lines[i + 1]);
        }
        lemma_no_host(rest);
    }
}

/// The head of an answer opens with its status, announces the length of what
/// follows, and closes with an empty line.
pub proof fn answers_announce_what_follows(status: Seq<char>, content_type: Seq<char>, length: nat)
    ensures
        ({
            let head = web::response_head(status, content_type, length);
            &&& text::starts(head, "HTTP/1.1 "@ + status + "\r\n"@)
            &&& text::occurs(head, "\r\nContent-Type: "@ + content_type + "\r\n"@)
            &&& text::occurs(head, "\r\nContent-Length: "@ + number::decimal(length) + "\r\n"@)
            &&& text::occurs(head, "\r\nCache-Control: no-store\r\n"@)
            &&& text::occurs(head, "\r\nX-Content-Type-Options: nosniff\r\n"@)
            &&& text::occurs(head, "\r\nContent-Security-Policy: default-src 'self'\r\n"@)
            &&& text::ends(head, "\r\n\r\n"@)
        }),
{
    reveal_strlit("HTTP/1.1 ");
    reveal_strlit("\r\n");
    reveal_strlit("\r\n\r\n");
    reveal_strlit("\r\nContent-Type: ");
    reveal_strlit("\r\nContent-Length: ");
    reveal_strlit("\r\nCache-Control: no-store\r\n");
    reveal_strlit("\r\nX-Content-Type-Options: nosniff\r\n");
    reveal_strlit("\r\nContent-Security-Policy: default-src 'self'\r\n");
    reveal_strlit("\r\nCache-Control: no-store\r\nX-Content-Type-Options: nosniff\r\nContent-Security-Policy: default-src 'self'\r\nConnection: close\r\n\r\n");
    let head = web::response_head(status, content_type, length);
    let opening = "HTTP/1.1 "@ + status;
    let digits = number::decimal(length);
    let tail = "\r\nCache-Control: no-store\r\nX-Content-Type-Options: nosniff\r\nContent-Security-Policy: default-src 'self'\r\nConnection: close\r\n\r\n"@;
    let first = opening.len() as int;
    let second = first + "\r\nContent-Type: "@.len() + content_type.len();
    let third = second + "\r\nContent-Length: "@.len() + digits.len();
    assert(head.skip(third) =~= tail);
    assert(head.take(first + 2) =~= opening + "\r\n"@);
    let a = "\r\nContent-Type: "@ + content_type + "\r\n"@;
    assert(head.subrange(first, first + a.len()) =~= a);
    assert(text::occurs_at(head, a, first));
    let b = "\r\nContent-Length: "@ + digits + "\r\n"@;
    assert(head.subrange(second, second + b.len()) =~= b);
    assert(text::occurs_at(head, b, second));
    let c = "\r\nCache-Control: no-store\r\n"@;
    assert(head.subrange(third, third + c.len()) =~= c);
    assert(text::occurs_at(head, c, third));
    let d = "\r\nX-Content-Type-Options: nosniff\r\n"@;
    let fourth = third + c.len() - 2;
    assert(head.subrange(fourth, fourth + d.len()) =~= d);
    assert(text::occurs_at(head, d, fourth));
    let e = "\r\nContent-Security-Policy: default-src 'self'\r\n"@;
    let fifth = fourth + d.len() - 2;
    assert(head.subrange(fifth, fifth + e.len()) =~= e);
    assert(text::occurs_at(head, e, fifth));
    assert(head.skip(head.len() - 4) =~= "\r\n\r\n"@);
}

/// A request is complete with the first empty line.
pub proof fn requests_end_with_an_empty_line(before: Seq<u8>, after: Seq<u8>)
    ensures
        web::holds_blank_line(before + seq![13u8, 10u8, 13u8, 10u8] + after),
        !before.contains(10u8) ==> !web::holds_blank_line(before),
{
    let all = before + seq![13u8, 10u8, 13u8, 10u8] + after;
    let n = before.len() as int;
    assert(all.subrange(n, n + 4) =~= seq![13u8, 10u8, 13u8, 10u8]);
    if !before.contains(10u8) && web::holds_blank_line(before) {
        let i = choose|i: int|
            0 <= i && i + 4 <= before.len() && #[trigger] before.subrange(i, i + 4) == seq![
                13u8,
                10u8,
                13u8,
                10u8,
            ];
        assert(before.subrange(i, i + 4)[1] == 10u8);
        assert(before[i + 1] == 10u8);
    }
}

} // verus!
