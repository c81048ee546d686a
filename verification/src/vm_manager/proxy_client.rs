//! What the manager sends to the proxy's session interface, and what it makes of the
//! replies.

use vstd::prelude::*;
use vstd::utf8::*;

use super::types::ProxyAllowlistEntry;
use crate::numbers;
use crate::text::{self, prefixed};
use crate::unicode;

verus! {

// ---------------------------------------------------------------------------
// Requests
// ---------------------------------------------------------------------------

/// The head of a request.
pub open spec fn head_text(method: Seq<char>, path: Seq<char>, length: Option<nat>) -> Seq<char> {
    let start = method + " "@ + path + " HTTP/1.1\r\nHost: localhost\r\n"@;
    match length {
        Some(n) => start + "Content-Type: application/json\r\nContent-Length: "@ + numbers::decimal(n)
            + "\r\n"@ + "Connection: close\r\n\r\n"@,
        None => start + "Connection: close\r\n\r\n"@,
    }
}

/// The bytes of a request.
pub open spec fn request_data(
    method: Seq<char>,
    path: Seq<char>,
    body: Option<Seq<char>>,
) -> Seq<u8> {
    match body {
        Some(b) => encode_utf8(head_text(method, path, Some(encode_utf8(b).len()))) + encode_utf8(
            b,
        ),
        None => encode_utf8(head_text(method, path, None)),
    }
}

/// The bytes of a request.
pub fn request_bytes(method: &str, path: &str, body: Option<&str>) -> (r: Vec<u8>)
    ensures
        r@ == request_data(
            method@,
            path@,
            match body {
                Some(b) => Some(b@),
                None => None,
            },
        ),
{
    let mut head = method.to_owned();
    head.append(" ");
    head.append(path);
    head.append(" HTTP/1.1\r\nHost: localhost\r\n");
    match body {
        Some(b) => {
            let data = b.as_bytes();
            head.append("Content-Type: application/json\r\nContent-Length: ");
            head.append(numbers::number_string(data.len() as u64).as_str());
            head.append("\r\n");
            head.append("Connection: close\r\n\r\n");
            let mut r = vstd::slice::slice_to_vec(head.as_str().as_bytes());
            r.extend_from_slice(data);
            proof {
                assert(r@ =~= request_data(method@, path@, Some(b@)));
            }
            r
        },
        None => {
            head.append("Connection: close\r\n\r\n");
            vstd::slice::slice_to_vec(head.as_str().as_bytes())
        },
    }
}

/// What the proxy is asked to register.
pub struct ProxySessionRequest {
    /// The name of the session.
    pub session_id: String,
    /// The address of the machine.
    pub source_ip: String,
    /// The hosts that it may reach.
    pub allowlist: Vec<ProxyAllowlistEntry>,
    /// When it ends, as an ISO 8601 text.
    pub expires_at: Option<String>,
}

/// The bytes of the request that registers a session, whose JSON text is `body`.
pub fn register_proxy_session(body: &str) -> (r: Vec<u8>)
    ensures
        r@ == request_data("POST"@, "/sessions"@, Some(body@)),
{
    request_bytes("POST", "/sessions", Some(body))
}

/// The bytes of the request that deletes a session.
pub fn delete_proxy_session(session_id: &str) -> (r: Vec<u8>)
    ensures
        r@ == request_data("DELETE"@, "/sessions/"@ + session_id@, None),
{
    let path = prefixed("/sessions/", session_id);
    request_bytes("DELETE", path.as_str(), None)
}

/// Why the proxy could not be reached.
pub fn connect_failure(socket_path: &str) -> (s: String)
    ensures
        s@ == "failed to connect to proxy socket: "@ + socket_path@,
{
    prefixed("failed to connect to proxy socket: ", socket_path)
}

/// Why the proxy's reply could not be read.
pub fn read_failure(why: &str) -> (s: String)
    ensures
        s@ == "failed to read proxy response: "@ + why@,
{
    prefixed("failed to read proxy response: ", why)
}

// ---------------------------------------------------------------------------
// Replies
// ---------------------------------------------------------------------------

/// A reply of the proxy.
#[derive(Debug)]
pub struct RawHttpResponse {
    /// Its HTTP status; 0 where it has none.
    pub status: u16,
    /// Its body.
    pub body: String,
}

/// The number of characters before the first white space.
pub open spec fn word_length(s: Seq<char>) -> nat
    decreases s.len(),
{
    if s.len() == 0 || unicode::is_space(s[0]) {
        0
    } else {
        1 + word_length(s.skip(1))
    }
}

/// The second of the words of a line, which white space separates.
pub open spec fn second_word(s: Seq<char>) -> Option<Seq<char>> {
    let a = unicode::trim_start(s);
    let b = unicode::trim_start(a.skip(word_length(a) as int));
    if b.len() == 0 {
        None
    } else {
        Some(b.take(word_length(b) as int))
    }
}

/// The status in the first line of a head; 0 where there is none.
pub open spec fn head_status(head: Seq<char>) -> u16 {
    let lines = unicode::lines(head);
    let line = if lines.len() > 0 {
        lines[0]
    } else {
        Seq::empty()
    };
    match second_word(line) {
        Some(w) => match numbers::parsed(w, 65535) {
            Some(n) => n as u16,
            None => 0,
        },
        None => 0,
    }
}

/// Two line breaks.
pub open spec fn blank_line() -> Seq<char> {
    "\r\n\r\n"@
}

/// The status and the body of a reply with that text, if its head ends.
pub open spec fn reply_parts(reply: Seq<char>) -> Option<(u16, Seq<char>)> {
    match text::find_from(reply, blank_line(), 0) {
        Some(i) => Some((head_status(reply.take(i)), reply.skip(i + blank_line().len()))),
        None => None,
    }
}

fn length_of_word(s: &[char], from: usize) -> (n: usize)
    requires
        from <= s@.len(),
    ensures
        n == word_length(s@.skip(from as int)),
        from + n <= s@.len(),
{
    let mut i: usize = from;
    let ghost all = s@.skip(from as int);
    proof {
        assert(all.skip(0) =~= all);
    }
    while i < s.len() && !unicode::is_white_space(s[i])
        invariant
            all == s@.skip(from as int),
            from <= i <= s@.len(),
            word_length(all) == (i - from) + word_length(all.skip(i - from)),
        decreases s@.len() - i,
    {
        proof {
            assert(all.skip(i - from).skip(1) =~= all.skip(i + 1 - from));
            assert(all.skip(i - from)[0] == s@[i as int]);
        }
        i = i + 1;
    }
    proof {
        let rest = all.skip(i - from);
        if i < s@.len() {
            assert(rest[0] == s@[i as int]);
        }
        assert(word_length(rest) == 0);
    }
    i - from
}

fn find_second_word(s: &[char]) -> (r: Option<Vec<char>>)
    ensures
        match r {
            Some(w) => second_word(s@) == Some(w@),
            None => second_word(s@) is None,
        },
{
    let from: usize = unicode::space_prefix(s);
    let n: usize = length_of_word(s, from);
    let len: usize = s.len();
    let rest = text::copy_range(s, from + n, len);
    let ghost a = unicode::trim_start(s@);
    proof {
        assert(rest@ =~= a.skip(word_length(a) as int));
    }
    let start: usize = unicode::space_prefix(rest.as_slice());
    let ghost b = unicode::trim_start(rest@);
    if start == rest.len() {
        proof {
            assert(b.len() == 0);
        }
        return None;
    }
    let m: usize = length_of_word(rest.as_slice(), start);
    let w = text::copy_range(rest.as_slice(), start, start + m);
    proof {
        assert(w@ =~= b.take(word_length(b) as int));
    }
    Some(w)
}

fn status_of_head(head: &[char]) -> (n: u16)
    ensures
        n == head_status(head@),
{
    let lines = unicode::lines_of(head);
    if lines.len() == 0 {
        proof {
            let e = Seq::<char>::empty();
            assert(unicode::trim_start(e) == e);
            assert(e.skip(word_length(e) as int) =~= e);
            assert(second_word(e) is None);
        }
        return 0;
    }
    assert(text::views(lines@)[0] == lines@[0]@);
    match find_second_word(lines[0].as_slice()) {
        Some(w) => match numbers::parse_number(w.as_slice(), 65535) {
            Some(n) => n as u16,
            None => 0,
        },
        None => 0,
    }
}

/// What the manager makes of a reply with that text.
pub fn parse_reply_text(reply: &[char]) -> (r: Result<RawHttpResponse, String>)
    ensures
        match r {
            Ok(p) => reply_parts(reply@) == Some((p.status, p.body@)),
            Err(e) => reply_parts(reply@) is None && e@
                == "malformed proxy response: no header terminator"@,
        },
{
    let mark = text::chars_of("\r\n\r\n");
    let len: usize = reply.len();
    proof {
        text::lemma_find_from(reply@, blank_line(), 0);
    }
    match text::find(reply, mark.as_slice(), 0) {
        Some(i) => {
            let head = text::copy_range(reply, 0, i);
            let body = text::copy_range(reply, i + mark.len(), len);
            proof {
                assert(head@ =~= reply@.take(i as int));
                assert(body@ =~= reply@.skip(i + blank_line().len()));
            }
            Ok(
                RawHttpResponse {
                    status: status_of_head(head.as_slice()),
                    body: text::string_of(body.as_slice()),
                },
            )
        },
        None => Err("malformed proxy response: no header terminator".to_owned()),
    }
}

/// What the manager makes of the bytes of a reply.
pub fn parse_reply(data: &[u8]) -> (r: Result<RawHttpResponse, String>)
    ensures
        match r {
            Ok(p) => reply_parts(unicode::decoded(data@)) == Some((p.status, p.body@)),
            Err(e) => reply_parts(unicode::decoded(data@)) is None && e@
                == "malformed proxy response: no header terminator"@,
        },
{
    let reply = unicode::decode_lossy(data);
    let cs = text::chars_of(reply.as_str());
    parse_reply_text(cs.as_slice())
}

// ---------------------------------------------------------------------------
// Laws
// ---------------------------------------------------------------------------

/// A request says what is asked for and where, and how many bytes follow its head; the body
/// follows as it is.
pub proof fn law_request_says_what_follows(
    method: Seq<char>,
    path: Seq<char>,
    body: Seq<char>,
)
    ensures
        ({
            let n = encode_utf8(body).len();
            let head = head_text(method, path, Some(n));
            let data = request_data(method, path, Some(body));
            &&& data == encode_utf8(head) + encode_utf8(body)
            &&& (method + " "@ + path + " HTTP/1.1\r\nHost: localhost\r\n"@).is_prefix_of(head)
            &&& text::contains(
                head,
                "Content-Type: application/json\r\nContent-Length: "@ + numbers::decimal(n)
                    + "\r\n"@,
            )
            &&& "Connection: close\r\n\r\n"@.is_suffix_of(head)
        }),
        ({
            let head = head_text(method, path, None);
            &&& request_data(method, path, None) == encode_utf8(head)
            &&& head == method + " "@ + path + " HTTP/1.1\r\nHost: localhost\r\n"@
                + "Connection: close\r\n\r\n"@
        }),
{
    let n = encode_utf8(body).len();
    let head = head_text(method, path, Some(n));
    let a = method + " "@ + path + " HTTP/1.1\r\nHost: localhost\r\n"@;
    let p = "Content-Type: application/json\r\nContent-Length: "@ + numbers::decimal(n) + "\r\n"@;
    let b = "Connection: close\r\n\r\n"@;
    text::law_middle_is_contained(a, p, b);
    assert(head =~= a + p + b);
    assert(head.subrange(0, a.len() as int) =~= a);
    assert(head.subrange(head.len() - b.len(), head.len() as int) =~= b);
}

proof fn lemma_word(w: Seq<char>, rest: Seq<char>)
    requires
        forall|k: int| 0 <= k < w.len() ==> !unicode::is_space(#[trigger] w[k]),
        rest.len() > 0 ==> unicode::is_space(rest[0]),
    ensures
        word_length(w + rest) == w.len(),
    decreases w.len(),
{
    let s = w + rest;
    if w.len() == 0 {
        assert(s =~= rest);
    } else {
        let t = w.skip(1);
        assert forall|k: int| 0 <= k < t.len() implies !unicode::is_space(#[trigger] t[k]) by {
            assert(t[k] == w[k + 1]);
        }
        lemma_word(t, rest);
        assert(s.skip(1) =~= t + rest);
        assert(s[0] == w[0]);
    }
}

/// The second word of a line is the one between its first two spaces.
pub proof fn law_second_word_is_read(a: Seq<char>, b: Seq<char>, rest: Seq<char>)
    requires
        a.len() > 0,
        b.len() > 0,
        forall|k: int| 0 <= k < a.len() ==> !unicode::is_space(#[trigger] a[k]),
        forall|k: int| 0 <= k < b.len() ==> !unicode::is_space(#[trigger] b[k]),
    ensures
        second_word(a + seq![' '] + b + seq![' '] + rest) == Some(b),
{
    let tail = seq![' '] + rest;
    let s = a + seq![' '] + b + seq![' '] + rest;
    let after_a = seq![' '] + (b + tail);
    assert(s =~= a + after_a);
    lemma_word(a, after_a);
    assert(s[0] == a[0]);
    assert(!unicode::is_space(a[0]));
    assert(unicode::trim_start(s) == s);
    assert(s.skip(a.len() as int) =~= after_a);
    assert(after_a.skip(1) =~= b + tail);
    assert((b + tail)[0] == b[0]);
    assert(!unicode::is_space(b[0]));
    assert(unicode::trim_start(b + tail) == b + tail);
    assert(unicode::trim_start(after_a) == b + tail);
    lemma_word(b, tail);
    assert((b + tail).take(b.len() as int) =~= b);
}

/// The status and the body of a reply are read as the proxy wrote them: the status from the
/// first line, and as the body all that follows the first empty line.
pub proof fn law_reply_reads_back(
    status: u16,
    reason: Seq<char>,
    headers: Seq<char>,
    body: Seq<char>,
)
    requires
        !reason.contains('\n'),
        reason.len() > 0,
        reason.last() != '\r',
        ({
            let head = "HTTP/1.1"@ + seq![' '] + numbers::decimal(status as nat) + seq![' '] + reason
                + text::crlf() + headers;
            text::find_from(head + blank_line() + body, blank_line(), 0) == Some(head.len() as int)
        }),
    ensures
        reply_parts(
            "HTTP/1.1"@ + seq![' '] + numbers::decimal(status as nat) + seq![' '] + reason
                + text::crlf() + headers + blank_line() + body,
        ) == Some((status, body)),
{
    let digits = numbers::decimal(status as nat);
    let line = "HTTP/1.1"@ + seq![' '] + digits + seq![' '] + reason;
    let head = line + text::crlf() + headers;
    let reply = head + blank_line() + body;
    reveal_strlit("HTTP/1.1");
    numbers::lemma_decimal_reads_back(status as nat);
    numbers::law_number_reads_back(status as nat, 65535);
    assert forall|k: int| 0 <= k < digits.len() implies !unicode::is_space(
        #[trigger] digits[k],
    ) by {
        assert(numbers::is_digit(digits[k]));
    }
    assert forall|k: int| 0 <= k < "HTTP/1.1"@.len() implies !unicode::is_space(
        #[trigger] "HTTP/1.1"@[k],
    ) by {
        assert(k == 0 || k == 1 || k == 2 || k == 3 || k == 4 || k == 5 || k == 6 || k == 7);
    }
    law_second_word_is_read("HTTP/1.1"@, digits, reason);
    lemma_no_line_feed(digits, reason);
    assert(line.last() == reason.last());
    unicode::law_first_line_comes_first(line, headers);
    assert(unicode::lines(head)[0] == line);
    assert(reply.take(head.len() as int) =~= head);
    assert(reply.skip(head.len() as int + blank_line().len()) =~= body);
}

proof fn lemma_no_line_feed(digits: Seq<char>, reason: Seq<char>)
    requires
        numbers::all_digits(digits),
        !reason.contains('\n'),
    ensures
        !("HTTP/1.1"@ + seq![' '] + digits + seq![' '] + reason).contains('\n'),
{
    let line = "HTTP/1.1"@ + seq![' '] + digits + seq![' '] + reason;
    reveal_strlit("HTTP/1.1");
    if line.contains('\n') {
        let k = line.index_of('\n');
        let n = digits.len();
        if k < 8 {
            assert(line[k] == "HTTP/1.1"@[k]);
            assert(k == 0 || k == 1 || k == 2 || k == 3 || k == 4 || k == 5 || k == 6 || k == 7);
        } else if 9 <= k < 9 + n {
            assert(line[k] == digits[k - 9]);
            assert(numbers::is_digit(digits[k - 9]));
        } else if k >= 10 + n {
            assert(line[k] == reason[k - 10 - n]);
            assert(reason.contains(reason[k - 10 - n]));
        }
    }
}

/// A session is registered under the path where the proxy takes new sessions, with the body
/// as it is, and deleted under the path that names it there.
pub proof fn law_session_is_asked_for_where_it_is(
    body: &str,
    session_id: &str,
    made: Vec<u8>,
    deleted: Vec<u8>,
    route: crate::proxy::api::Route,
    new: crate::proxy::api::Route,
)
    requires
        session_id@.len() > 0,
        call_ensures(register_proxy_session, (body,), made),
        call_ensures(delete_proxy_session, (session_id,), deleted),
        crate::proxy::api::routes_to("DELETE"@, "/sessions/"@ + session_id@, route),
        crate::proxy::api::routes_to("POST"@, "/sessions"@, new),
    ensures
        made@ == request_data("POST"@, "/sessions"@, Some(body@)),
        encode_utf8(body@).is_suffix_of(made@),
        new is Create,
        deleted@ == request_data("DELETE"@, "/sessions/"@ + session_id@, None),
        route matches crate::proxy::api::Route::Delete(id) && id@ == session_id@,
{
    let b = encode_utf8(body@);
    assert(made@.subrange(made@.len() - b.len(), made@.len() as int) =~= b);
    let path = "/sessions/"@ + session_id@;
    reveal_strlit("/sessions/");
    reveal_strlit("/sessions");
    reveal_strlit("GET");
    reveal_strlit("POST");
    reveal_strlit("DELETE");
    assert("GET"@.len() == 3 && "POST"@.len() == 4 && "DELETE"@.len() == 6);
    assert(path.subrange(0, 10) =~= "/sessions/"@);
    assert(path.skip(10) =~= session_id@);
    assert(path.len() > "/sessions"@.len());
}

/// A reply without an empty line is none.
pub proof fn law_reply_has_an_empty_line(reply: Seq<char>)
    ensures
        reply_parts(reply) is Some <==> text::contains(reply, "\r\n\r\n"@),
        reply_parts(reply) matches Some(p) ==> p.1.is_suffix_of(reply),
{
    text::lemma_find_from(reply, blank_line(), 0);
    if let Some(i) = text::find_from(reply, blank_line(), 0) {
        let body = reply.skip(i + blank_line().len());
        assert(text::matches_at(reply, blank_line(), i));
        assert(reply.subrange(reply.len() - body.len(), reply.len() as int) =~= body);
    }
    if text::contains(reply, blank_line()) {
        let i = choose|i: int| text::matches_at(reply, blank_line(), i);
        assert(0 <= i);
    }
}

} // verus!
