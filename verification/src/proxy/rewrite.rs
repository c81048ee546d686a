//! Rewriting a request on its way to the upstream host: the key that the client
//! sent is taken out and the real key is put in.

use vstd::prelude::*;
use vstd::utf8::*;
use vstd::slice::slice_to_vec;

use crate::strmap::StrMap;
use crate::text;
use crate::unicode;

verus! {

// ---------------------------------------------------------------------------
// Header lines
// ---------------------------------------------------------------------------

/// The value of a header line whose name, trimmed, is `name` up to ASCII case:
/// what follows the first colon. `None` of any other line.
pub open spec fn header_value(line: Seq<char>, name: Seq<char>) -> Option<Seq<char>> {
    match text::split_once(line, ':') {
        Some((n, v)) => if text::same_ignoring_ascii_case(unicode::trim(n), name) {
            Some(v)
        } else {
            None
        },
        None => None,
    }
}

/// What a header value, trimmed, holds after the scheme word `Bearer` and a space.
pub open spec fn bearer_token(value: Seq<char>) -> Option<Seq<char>> {
    let v = unicode::trim(value);
    if "Bearer "@.is_prefix_of(v) {
        Some(unicode::trim(v.skip("Bearer "@.len() as int)))
    } else {
        None
    }
}

/// The bearer token of an `Authorization` line.
pub open spec fn bearer_key(line: Seq<char>) -> Option<Seq<char>> {
    match header_value(line, "authorization"@) {
        Some(v) => bearer_token(v),
        None => None,
    }
}

/// The bearer token of the first line that has one.
pub open spec fn first_bearer_key(lines: Seq<Seq<char>>) -> Option<Seq<char>>
    decreases lines.len(),
{
    if lines.len() == 0 {
        None
    } else {
        match bearer_key(lines[0]) {
            Some(k) => Some(k),
            None => first_bearer_key(lines.skip(1)),
        }
    }
}

/// The lines that are not headers of that name.
pub open spec fn without_header(lines: Seq<Seq<char>>, name: Seq<char>) -> Seq<Seq<char>> {
    lines.filter(|line: Seq<char>| header_value(line, name) is None)
}

/// The lines with each `Host` header made to name `host`.
pub open spec fn with_host(lines: Seq<Seq<char>>, host: Seq<char>) -> Seq<Seq<char>> {
    Seq::new(
        lines.len(),
        |i: int|
            if header_value(lines[i], "host"@) is Some {
                "Host: "@ + host
            } else {
                lines[i]
            },
    )
}

/// The lines with an `Authorization` header for `key` after the first of them, if
/// there is more than one.
pub open spec fn with_key(lines: Seq<Seq<char>>, key: Seq<char>) -> Seq<Seq<char>> {
    if lines.len() > 1 {
        lines.insert(1, "Authorization: Bearer "@ + key)
    } else {
        lines
    }
}

/// The lines of a request that goes on to `host` under `key`.
pub open spec fn rewritten_lines(
    lines: Seq<Seq<char>>,
    key: Seq<char>,
    host: Seq<char>,
) -> Seq<Seq<char>> {
    with_key(with_host(without_header(lines, "authorization"@), host), key)
}

/// The text of a request that goes on to `host` under `key`.
pub open spec fn rewritten(request: Seq<char>, key: Seq<char>, host: Seq<char>) -> Seq<char> {
    text::join(rewritten_lines(text::split(request, text::crlf()), key, host), text::crlf())
}

/// The value of the line if it is a header of that name.
pub fn value_of_header(line: &[char], name: &[char]) -> (r: Option<Vec<char>>)
    ensures
        match r {
            Some(v) => header_value(line@, name@) == Some(v@),
            None => header_value(line@, name@) is None,
        },
{
    let len: usize = line.len();
    match text::index_of_char(line, ':', 0) {
        Some(i) => {
            let n = text::copy_range(line, 0, i);
            let n = unicode::trim_chars(n.as_slice());
            proof {
                assert(line@.subrange(0, i as int) =~= line@.take(i as int));
            }
            if text::eq_ignore_ascii_case(n.as_slice(), name) {
                let v = text::copy_range(line, i + 1, len);
                proof {
                    assert(v@ =~= line@.skip(i + 1));
                }
                Some(v)
            } else {
                None
            }
        },
        None => None,
    }
}

fn key_of_line(line: &[char]) -> (r: Option<Vec<char>>)
    ensures
        match r {
            Some(k) => bearer_key(line@) == Some(k@),
            None => bearer_key(line@) is None,
        },
{
    let name = text::chars_of("authorization");
    match value_of_header(line, name.as_slice()) {
        Some(v) => {
            let token = unicode::trim_chars(v.as_slice());
            let scheme = text::chars_of("Bearer ");
            if text::begins_with(token.as_slice(), scheme.as_slice()) {
                let rest = text::copy_range(token.as_slice(), scheme.len(), token.len());
                proof {
                    assert(rest@ =~= token@.skip("Bearer "@.len() as int));
                }
                Some(unicode::trim_chars(rest.as_slice()))
            } else {
                None
            }
        },
        None => None,
    }
}

fn first_key(lines: &Vec<Vec<char>>) -> (r: Option<Vec<char>>)
    ensures
        match r {
            Some(k) => first_bearer_key(text::views(lines@)) == Some(k@),
            None => first_bearer_key(text::views(lines@)) is None,
        },
{
    let ghost all = text::views(lines@);
    let mut i: usize = 0;
    proof {
        assert(all.skip(0) =~= all);
    }
    while i < lines.len()
        invariant
            all == text::views(lines@),
            i <= lines@.len(),
            first_bearer_key(all) == first_bearer_key(all.skip(i as int)),
        decreases lines@.len() - i,
    {
        proof {
            assert(all.skip(i as int)[0] == lines@[i as int]@);
            assert(all.skip(i as int).skip(1) =~= all.skip(i + 1));
        }
        let k = key_of_line(lines[i].as_slice());
        if k.is_some() {
            return k;
        }
        i = i + 1;
    }
    None
}

fn drop_header(lines: Vec<Vec<char>>, name: &[char]) -> (kept: Vec<Vec<char>>)
    ensures
        text::views(kept@) == without_header(text::views(lines@), name@),
{
    let ghost all = text::views(lines@);
    let ghost keep = |line: Seq<char>| header_value(line, name@) is None;
    let mut kept: Vec<Vec<char>> = Vec::new();
    let mut i: usize = 0;
    proof {
        reveal(Seq::filter);
        assert(text::views(kept@) =~= all.take(0).filter(keep));
    }
    while i < lines.len()
        invariant
            all == text::views(lines@),
            keep == (|line: Seq<char>| header_value(line, name@) is None),
            i <= lines@.len(),
            text::views(kept@) == all.take(i as int).filter(keep),
        decreases lines@.len() - i,
    {
        let ghost before = kept@;
        proof {
            reveal(Seq::filter);
            assert(all.take(i + 1).drop_last() =~= all.take(i as int));
            assert(all.take(i + 1).last() == lines@[i as int]@);
        }
        if value_of_header(lines[i].as_slice(), name).is_none() {
            let copy = text::copy_range(lines[i].as_slice(), 0, lines[i].len());
            proof {
                assert(copy@ =~= lines@[i as int]@);
            }
            kept.push(copy);
            proof {
                assert(text::views(kept@) =~= text::views(before).push(lines@[i as int]@));
            }
        }
        i = i + 1;
    }
    proof {
        assert(all.take(i as int) =~= all);
    }
    kept
}

fn set_host(lines: &mut Vec<Vec<char>>, host: &str)
    ensures
        text::views(final(lines)@) == with_host(text::views(old(lines)@), host@),
        final(lines)@.len() == old(lines)@.len(),
        forall|i: int|
            0 <= i < old(lines)@.len() ==> {
                let line = (#[trigger] old(lines)@[i])@;
                &&& header_value(line, "host"@) is None ==> final(lines)@[i]@ == line
                &&& header_value(line, "host"@) is Some ==> final(lines)@[i]@ == "Host: "@ + host@
            },
{
    let ghost all = text::views(lines@);
    let name = text::chars_of("host");
    let mut i: usize = 0;
    while i < lines.len()
        invariant
            name@ == "host"@,
            all.len() == lines@.len(),
            i <= lines@.len(),
            forall|j: int| i <= j < lines@.len() ==> (#[trigger] lines@[j])@ == all[j],
            forall|j: int|
                0 <= j < i ==> (#[trigger] lines@[j])@ == with_host(all, host@)[j],
        decreases lines@.len() - i,
    {
        if value_of_header(lines[i].as_slice(), name.as_slice()).is_some() {
            let mut line = text::chars_of("Host: ");
            let mut rest = text::chars_of(host);
            line.append(&mut rest);
            lines.set(i, line);
        }
        i = i + 1;
    }
    proof {
        assert(text::views(lines@) =~= with_host(all, host@));
        assert forall|i: int| 0 <= i < old(lines)@.len() implies {
            let line = (#[trigger] old(lines)@[i])@;
            &&& header_value(line, "host"@) is None ==> lines@[i]@ == line
            &&& header_value(line, "host"@) is Some ==> lines@[i]@ == "Host: "@ + host@
        } by {
            assert(all[i] == old(lines)@[i]@);
        }
    }
}

fn add_key(lines: &mut Vec<Vec<char>>, key: &str)
    ensures
        text::views(final(lines)@) == with_key(text::views(old(lines)@), key@),
{
    if lines.len() > 1 {
        let mut line = text::chars_of("Authorization: Bearer ");
        let mut rest = text::chars_of(key);
        line.append(&mut rest);
        lines.insert(1, line);
    }
    proof {
        assert(text::views(lines@) =~= with_key(text::views(old(lines)@), key@));
    }
}

/// The line break of HTTP.
pub fn line_break() -> (r: Vec<char>)
    ensures
        r@ == text::crlf(),
{
    let mut r: Vec<char> = Vec::new();
    r.push('\r');
    r.push('\n');
    proof {
        assert(r@ =~= text::crlf());
    }
    r
}

/// The text of a request that goes on to `host` under `key`.
pub fn with_real_key(request: &[char], key: &str, host: &str) -> (out: Vec<char>)
    ensures
        out@ == rewritten(request@, key@, host@),
{
    let sep = line_break();
    let lines = text::split_chars(request, sep.as_slice());
    let name = text::chars_of("authorization");
    let mut lines = drop_header(lines, name.as_slice());
    set_host(&mut lines, host);
    add_key(&mut lines, key);
    text::join_chars(&lines, sep.as_slice())
}

/// The bytes of a text in UTF-8.
pub fn utf8_bytes(cs: &[char]) -> (b: Vec<u8>)
    ensures
        b@ == encode_utf8(cs@),
{
    let s = text::string_of(cs);
    slice_to_vec(s.as_str().as_bytes())
}

// ---------------------------------------------------------------------------
// Swapping a dummy key for the real one
// ---------------------------------------------------------------------------

/// Why a request cannot go on.
#[derive(Debug)]
pub enum RewriteError {
    /// No line of the request is an `Authorization` header with a bearer token.
    NoAuthHeader,
    /// The token is not a dummy key of the session.
    UnknownDummyKey(String),
}

/// The text of the request with its dummy key swapped for the real key, and its
/// `Host` header set to `host`.
pub fn rewrite_text(request: &[char], dummy_to_real: &StrMap<String>, host: &str) -> (r: Result<
    Vec<char>,
    RewriteError,
>)
    ensures
        ({
            let sent = first_bearer_key(text::split(request@, text::crlf()));
            match r {
                Ok(out) => sent is Some && dummy_to_real@.dom().contains(sent->0) && out@
                    == rewritten(request@, dummy_to_real@[sent->0]@, host@),
                Err(RewriteError::NoAuthHeader) => sent is None,
                Err(RewriteError::UnknownDummyKey(k)) => sent == Some(k@)
                    && !dummy_to_real@.dom().contains(k@),
            }
        }),
{
    let sep = line_break();
    let lines = text::split_chars(request, sep.as_slice());
    let sent = match first_key(&lines) {
        Some(k) => text::string_of(k.as_slice()),
        None => {
            return Err(RewriteError::NoAuthHeader);
        },
    };
    match dummy_to_real.get(sent.as_str()) {
        Some(key) => Ok(with_real_key(request, key.as_str(), host)),
        None => Err(RewriteError::UnknownDummyKey(sent)),
    }
}

/// The request with its dummy key swapped for the real key, and its `Host` header
/// set to `host`. A request without a bearer token, or with a token that is not a
/// dummy key of the session, is refused.
pub fn rewrite_request(raw: &[u8], dummy_to_real: &StrMap<String>, host: &str) -> (r: Result<
    Vec<u8>,
    RewriteError,
>)
    ensures
        ({
            let request = unicode::decoded(raw@);
            let sent = first_bearer_key(text::split(request, text::crlf()));
            match r {
                Ok(out) => sent is Some && dummy_to_real@.dom().contains(sent->0) && out@
                    == encode_utf8(rewritten(request, dummy_to_real@[sent->0]@, host@)),
                Err(RewriteError::NoAuthHeader) => sent is None,
                Err(RewriteError::UnknownDummyKey(k)) => sent == Some(k@)
                    && !dummy_to_real@.dom().contains(k@),
            }
        }),
{
    let request = unicode::decode_lossy(raw);
    let cs = text::chars_of(request.as_str());
    match rewrite_text(cs.as_slice(), dummy_to_real, host) {
        Ok(out) => Ok(utf8_bytes(out.as_slice())),
        Err(e) => Err(e),
    }
}

// ---------------------------------------------------------------------------
// WebSocket upgrades
// ---------------------------------------------------------------------------

/// Whether the request asks for an upgrade to a WebSocket: one line is
/// `Connection: Upgrade`, and one contains `Upgrade: websocket`, each up to case.
pub open spec fn asks_for_websocket(request: Seq<char>) -> bool {
    let lines = unicode::lines(request);
    &&& exists|i: int|
        0 <= i < lines.len() && text::same_ignoring_ascii_case(
            #[trigger] lines[i],
            "connection: upgrade"@,
        )
    &&& exists|i: int|
        0 <= i < lines.len() && text::contains(
            unicode::lowered(#[trigger] lines[i]),
            "upgrade: websocket"@,
        )
}

/// Whether the text of a request asks for an upgrade to a WebSocket.
pub fn is_websocket_text(request: &[char]) -> (r: bool)
    ensures
        r == asks_for_websocket(request@),
{
    let lines = unicode::lines_of(request);
    let ghost all = text::views(lines@);
    let connection = text::chars_of("connection: upgrade");
    let upgrade = text::chars_of("upgrade: websocket");
    let mut has_upgrade = false;
    let mut has_websocket = false;
    let mut i: usize = 0;
    while i < lines.len()
        invariant
            all == text::views(lines@),
            connection@ == "connection: upgrade"@,
            upgrade@ == "upgrade: websocket"@,
            i <= lines@.len(),
            has_upgrade == exists|j: int|
                0 <= j < i && text::same_ignoring_ascii_case(
                    #[trigger] all[j],
                    "connection: upgrade"@,
                ),
            has_websocket == exists|j: int|
                0 <= j < i && text::contains(
                    unicode::lowered(#[trigger] all[j]),
                    "upgrade: websocket"@,
                ),
        decreases lines@.len() - i,
    {
        assert(all[i as int] == lines@[i as int]@);
        if text::eq_ignore_ascii_case(lines[i].as_slice(), connection.as_slice()) {
            has_upgrade = true;
        }
        let line = text::string_of(lines[i].as_slice());
        let low = unicode::lowercase(line.as_str());
        let low = text::chars_of(low.as_str());
        if text::has(low.as_slice(), upgrade.as_slice()) {
            has_websocket = true;
        }
        i = i + 1;
    }
    has_upgrade && has_websocket
}

/// Whether the request asks for an upgrade to a WebSocket. Such a request goes on
/// as it is.
pub fn is_websocket_upgrade(raw: &[u8]) -> (r: bool)
    ensures
        r == asks_for_websocket(unicode::decoded(raw@)),
{
    let request = unicode::decode_lossy(raw);
    let cs = text::chars_of(request.as_str());
    is_websocket_text(cs.as_slice())
}

// ---------------------------------------------------------------------------
// Laws
// ---------------------------------------------------------------------------

proof fn lemma_index_is(s: Seq<char>, c: char, n: int)
    requires
        0 <= n < s.len(),
        s[n] == c,
        forall|j: int| 0 <= j < n ==> s[j] != c,
    ensures
        text::first_index(s, c, 0) == Some(n),
{
    text::lemma_first_index(s, c, 0);
}

proof fn lemma_authorization_line(key: Seq<char>)
    ensures
        header_value("Authorization: Bearer "@ + key, "authorization"@) is Some,
        header_value("Authorization: Bearer "@ + key, "host"@) is None,
        "Authorization: Bearer "@.len() == 22,
        "Authorization: Bearer "@[0] == 'A',
{
    let line = "Authorization: Bearer "@ + key;
    reveal_strlit("Authorization: Bearer ");
    reveal_strlit("authorization");
    reveal_strlit("host");
    assert(line[13] == ':');
    assert forall|j: int| 0 <= j < 13 implies line[j] != ':' by {
        assert(j == 0 || j == 1 || j == 2 || j == 3 || j == 4 || j == 5 || j == 6 || j == 7 || j
            == 8 || j == 9 || j == 10 || j == 11 || j == 12);
    }
    lemma_index_is(line, ':', 13);
    let n = line.take(13);
    assert(n[0] == 'A' && n[12] == 'n');
    assert(unicode::trim(n) == n);
    assert(text::ascii_lower_all(n) =~= text::ascii_lower_all("authorization"@));
    assert(text::ascii_lower_all(n).len() != text::ascii_lower_all("host"@).len());
}

proof fn lemma_host_line(host: Seq<char>)
    ensures
        header_value("Host: "@ + host, "authorization"@) is None,
        header_value("Host: "@ + host, "host"@) == Some(seq![' '] + host),
{
    let line = "Host: "@ + host;
    reveal_strlit("Host: ");
    reveal_strlit("authorization");
    reveal_strlit("host");
    assert(line[4] == ':');
    assert forall|j: int| 0 <= j < 4 implies line[j] != ':' by {
        assert(j == 0 || j == 1 || j == 2 || j == 3);
    }
    lemma_index_is(line, ':', 4);
    let n = line.take(4);
    assert(n[0] == 'H' && n[3] == 't');
    assert(unicode::trim(n) == n);
    assert(text::ascii_lower_all(n) =~= text::ascii_lower_all("host"@));
    assert(text::ascii_lower_all(n).len() != text::ascii_lower_all("authorization"@).len());
    assert(line.skip(5) =~= seq![' '] + host);
}

/// Of the lines that go on, one is an `Authorization` header, the second, and it
/// holds the real key, whatever the client sent; where no more than one other line
/// is left, there is none. Every `Host` header names the upstream host, and the
/// other lines are those that the client sent, in order.
pub proof fn law_only_real_key_goes_on(lines: Seq<Seq<char>>, key: Seq<char>, host: Seq<char>)
    ensures
        ({
            let out = rewritten_lines(lines, key, host);
            let kept = without_header(lines, "authorization"@);
            &&& forall|i: int|
                0 <= i < out.len() ==> (header_value(#[trigger] out[i], "authorization"@) is Some
                    <==> i == 1 && kept.len() > 1)
            &&& kept.len() > 1 ==> out[1] == "Authorization: Bearer "@ + key && out.remove(1)
                == with_host(kept, host)
            &&& kept.len() <= 1 ==> out == with_host(kept, host)
            &&& forall|i: int|
                0 <= i < out.len() && header_value(#[trigger] out[i], "host"@) is Some ==> out[i]
                    == "Host: "@ + host
        }),
{
    let keep = |line: Seq<char>| header_value(line, "authorization"@) is None;
    let kept = without_header(lines, "authorization"@);
    let hosted = with_host(kept, host);
    let out = rewritten_lines(lines, key, host);
    lemma_authorization_line(key);
    lemma_host_line(host);
    assert forall|i: int| 0 <= i < hosted.len() implies header_value(
        #[trigger] hosted[i],
        "authorization"@,
    ) is None && (header_value(hosted[i], "host"@) is Some ==> hosted[i] == "Host: "@ + host) by {
        lines.lemma_filter_pred(keep, i);
    }
    if kept.len() > 1 {
        assert(out.remove(1) =~= hosted);
        assert forall|i: int| 0 <= i < out.len() && i != 1 implies #[trigger] out[i] == hosted[if i
            < 1 {
            i
        } else {
            i - 1
        }] by {}
    }
}

proof fn lemma_no_break_in_prefixed(prefix: Seq<char>, s: Seq<char>)
    requires
        forall|j: int| 0 <= j < prefix.len() ==> prefix[j] != '\r',
        !text::contains(s, text::crlf()),
    ensures
        !text::contains(prefix + s, text::crlf()),
{
    let line = prefix + s;
    assert forall|j: int| !text::matches_at(line, text::crlf(), j) by {
        text::lemma_break_at(line, j);
        let k = j - prefix.len();
        text::lemma_break_at(s, k);
        assert(!text::matches_at(s, text::crlf(), k));
        if 0 <= j < prefix.len() {
            assert(line[j] == prefix[j]);
        } else if prefix.len() <= j && j + 2 <= line.len() {
            assert(line[j] == s[k] && line[j + 1] == s[k + 1]);
        }
    }
}

/// Who reads the request that goes on, splitting it at its line breaks, reads the
/// rewritten lines: neither the key nor the host adds a line of its own, as long
/// as they hold no line break and some line of the request is not an
/// `Authorization` header.
pub proof fn law_forwarded_request_reads_back(request: Seq<char>, key: Seq<char>, host: Seq<char>)
    requires
        !text::contains(key, text::crlf()),
        !text::contains(host, text::crlf()),
        without_header(text::split(request, text::crlf()), "authorization"@).len() > 0,
    ensures
        valid_utf8(encode_utf8(rewritten(request, key, host))),
        text::split(decode_utf8(encode_utf8(rewritten(request, key, host))), text::crlf())
            == rewritten_lines(text::split(request, text::crlf()), key, host),
{
    let lines = text::split(request, text::crlf());
    let keep = |line: Seq<char>| header_value(line, "authorization"@) is None;
    let kept = without_header(lines, "authorization"@);
    let hosted = with_host(kept, host);
    let out = rewritten_lines(lines, key, host);
    text::lemma_pieces_lack_separator(request, text::crlf());
    reveal_strlit("Authorization: Bearer ");
    reveal_strlit("Host: ");
    lemma_no_break_in_prefixed("Authorization: Bearer "@, key);
    lemma_no_break_in_prefixed("Host: "@, host);
    assert forall|i: int| 0 <= i < hosted.len() implies !text::contains(
        #[trigger] hosted[i],
        text::crlf(),
    ) by {
        text::lemma_filter_source(lines, keep, i);
        let k = lines.index_of(kept[i]);
        assert(lines[k] == kept[i]);
    }
    assert forall|i: int| 0 <= i < out.len() implies !text::contains(
        #[trigger] out[i],
        text::crlf(),
    ) by {
        if kept.len() > 1 && i > 1 {
            assert(out[i] == hosted[i - 1]);
        }
    }
    text::lemma_split_join_lines(out);
    encode_utf8_valid_utf8(rewritten(request, key, host));
    encode_utf8_decode_utf8(rewritten(request, key, host));
}

/// A line is a header of a name where what stands before its first colon, without the
/// white space around it, is that name up to the case of letters. Its value is all that
/// follows the colon. A line without a colon is no header.
pub proof fn law_header_is_known_by_its_name(n: Seq<char>, v: Seq<char>, name: Seq<char>)
    requires
        !n.contains(':'),
    ensures
        header_value(n + seq![':'] + v, name) == (if text::same_ignoring_ascii_case(
            unicode::trim(n),
            name,
        ) {
            Some(v)
        } else {
            None
        }),
        header_value(n, name) is None,
{
    let line = n + seq![':'] + v;
    let k = n.len() as int;
    assert(line[k] == ':');
    assert forall|j: int| 0 <= j < k implies line[j] != ':' by {
        assert(line[j] == n[j]);
        assert(n.contains(n[j]));
    }
    lemma_index_is(line, ':', k);
    assert(line.take(k) =~= n);
    assert(line.skip(k + 1) =~= v);
    text::lemma_first_index(n, ':', 0);
    if let Some(i) = text::first_index(n, ':', 0) {
        assert(n.contains(n[i]));
    }
}

/// A line is a header of one name only, up to the case of letters.
pub proof fn law_header_has_one_name(line: Seq<char>, a: Seq<char>, b: Seq<char>)
    requires
        header_value(line, a) is Some,
        header_value(line, b) is Some,
    ensures
        text::same_ignoring_ascii_case(a, b),
        header_value(line, a) == header_value(line, b),
        header_value(line, a)->0.is_suffix_of(line),
{
    text::lemma_first_index(line, ':', 0);
    let i = text::first_index(line, ':', 0)->0;
    let v = line.skip(i + 1);
    assert(line.subrange(line.len() - v.len(), line.len() as int) =~= v);
}

/// The lines that say neither where a request goes nor under which key.
pub open spec fn says_something_else() -> spec_fn(Seq<char>) -> bool {
    |line: Seq<char>|
        header_value(line, "authorization"@) is None && header_value(line, "host"@) is None
}

proof fn lemma_hosted_rest(lines: Seq<Seq<char>>, host: Seq<char>)
    ensures
        with_host(without_header(lines, "authorization"@), host).filter(says_something_else())
            == lines.filter(says_something_else()),
    decreases lines.len(),
{
    let other = says_something_else();
    let keep = |line: Seq<char>| header_value(line, "authorization"@) is None;
    let kept = without_header(lines, "authorization"@);
    reveal(Seq::filter);
    lemma_host_line(host);
    if lines.len() == 0 {
        assert(with_host(kept, host) =~= Seq::<Seq<char>>::empty());
    } else {
        let init = lines.drop_last();
        let last = lines.last();
        let before = without_header(init, "authorization"@);
        lemma_hosted_rest(init, host);
        if keep(last) {
            assert(kept == before.push(last));
            let new = if header_value(last, "host"@) is Some {
                "Host: "@ + host
            } else {
                last
            };
            let hosted = with_host(kept, host);
            assert(hosted =~= with_host(before, host).push(new));
            assert(hosted.drop_last() =~= with_host(before, host));
            assert(hosted.last() == new);
        } else {
            assert(kept == before);
        }
    }
}

/// Every line that is neither an `Authorization` nor a `Host` header goes on as the client
/// sent it, in the order in which it was sent, and there is no other such line.
pub proof fn law_other_lines_go_on_unchanged(
    lines: Seq<Seq<char>>,
    key: Seq<char>,
    host: Seq<char>,
)
    ensures
        rewritten_lines(lines, key, host).filter(says_something_else()) == lines.filter(
            says_something_else(),
        ),
{
    let other = says_something_else();
    let hosted = with_host(without_header(lines, "authorization"@), host);
    lemma_hosted_rest(lines, host);
    if hosted.len() > 1 {
        let line = "Authorization: Bearer "@ + key;
        let a = hosted.take(1);
        let b = hosted.skip(1);
        lemma_authorization_line(key);
        assert(rewritten_lines(lines, key, host) =~= a + seq![line] + b);
        assert(hosted =~= a + b);
        Seq::filter_distributes_over_add(a + seq![line], b, other);
        Seq::filter_distributes_over_add(a, seq![line], other);
        Seq::filter_distributes_over_add(a, b, other);
        text::lemma_filter_none(line, other);
        assert(a.filter(other) + Seq::<Seq<char>>::empty() =~= a.filter(other));
    }
}

/// Each line that is no `Authorization` header keeps its place among those lines: a `Host`
/// header is there as one for the upstream host, and any other line as it was. The new
/// `Authorization` header stands behind the first of them.
pub proof fn law_lines_keep_their_places(lines: Seq<Seq<char>>, key: Seq<char>, host: Seq<char>)
    ensures
        ({
            let out = rewritten_lines(lines, key, host);
            let kept = lines.filter(
                |line: Seq<char>| header_value(line, "authorization"@) is None,
            );
            &&& out.len() == kept.len() + (if kept.len() > 1 {
                1int
            } else {
                0int
            })
            &&& forall|i: int|
                0 <= i < kept.len() ==> {
                    let place = if i == 0 {
                        0
                    } else {
                        i + 1
                    };
                    &&& header_value(#[trigger] kept[i], "host"@) is None ==> out[place] == kept[i]
                    &&& header_value(kept[i], "host"@) is Some ==> out[place] == "Host: "@ + host
                }
            &&& kept.len() > 1 ==> out[1] == "Authorization: Bearer "@ + key
        }),
{
}

/// A request with one `Authorization` header, and no `Host` header, goes on line by line as
/// it was, up to the empty line and the body behind it. In place of that header there is
/// one with the real key behind the first line.
pub proof fn law_request_goes_on_whole(
    before: Seq<Seq<char>>,
    auth: Seq<char>,
    after: Seq<Seq<char>>,
    key: Seq<char>,
    host: Seq<char>,
)
    requires
        before.len() > 0,
        after.len() > 0,
        header_value(auth, "authorization"@) is Some,
        !text::contains(auth, text::crlf()),
        forall|i: int|
            0 <= i < before.len() ==> says_something_else()(#[trigger] before[i])
                && !text::contains(before[i], text::crlf()),
        forall|i: int|
            0 <= i < after.len() ==> says_something_else()(#[trigger] after[i])
                && !text::contains(after[i], text::crlf()),
    ensures
        rewritten(text::join(before + seq![auth] + after, text::crlf()), key, host) == text::join(
            seq![before[0], "Authorization: Bearer "@ + key] + before.skip(1) + after,
            text::crlf(),
        ),
        first_bearer_key(
            text::split(text::join(before + seq![auth] + after, text::crlf()), text::crlf()),
        ) == bearer_key(auth),
{
    let lines = before + seq![auth] + after;
    let keep = |line: Seq<char>| header_value(line, "authorization"@) is None;
    assert forall|k: int| 0 <= k < lines.len() implies !text::contains(
        #[trigger] lines[k],
        text::crlf(),
    ) by {
        if k < before.len() {
            assert(lines[k] == before[k]);
        } else if k > before.len() {
            assert(lines[k] == after[k - before.len() - 1]);
        }
    }
    text::lemma_split_join_lines(lines);
    assert forall|k: int| 0 <= k < before.len() implies keep(#[trigger] before[k]) by {
        assert(says_something_else()(before[k]));
    }
    assert forall|k: int| 0 <= k < after.len() implies keep(#[trigger] after[k]) by {
        assert(says_something_else()(after[k]));
    }
    text::lemma_filter_all(before, keep);
    text::lemma_filter_all(after, keep);
    Seq::filter_distributes_over_add(before + seq![auth], after, keep);
    Seq::filter_distributes_over_add(before, seq![auth], keep);
    text::lemma_filter_none(auth, keep);
    let kept = without_header(lines, "authorization"@);
    assert(kept =~= before + after);
    let hosted = with_host(kept, host);
    assert(hosted =~= kept) by {
        assert forall|k: int| 0 <= k < kept.len() implies hosted[k] == #[trigger] kept[k] by {
            if k < before.len() {
                assert(kept[k] == before[k]);
                assert(says_something_else()(before[k]));
            } else {
                assert(kept[k] == after[k - before.len()]);
                assert(says_something_else()(after[k - before.len()]));
            }
        }
    }
    assert(rewritten_lines(lines, key, host) =~= seq![before[0], "Authorization: Bearer "@ + key]
        + before.skip(1) + after);
    lemma_first_key_behind(before, auth, after);
}

proof fn lemma_no_key(lines: Seq<Seq<char>>)
    requires
        forall|i: int|
            0 <= i < lines.len() ==> header_value(#[trigger] lines[i], "authorization"@) is None,
    ensures
        first_bearer_key(lines) is None,
    decreases lines.len(),
{
    if lines.len() > 0 {
        let rest = lines.skip(1);
        assert forall|i: int| 0 <= i < rest.len() implies header_value(
            #[trigger] rest[i],
            "authorization"@,
        ) is None by {
            assert(rest[i] == lines[i + 1]);
        }
        lemma_no_key(rest);
        assert(header_value(lines[0], "authorization"@) is None);
    }
}

proof fn lemma_first_key_behind(before: Seq<Seq<char>>, auth: Seq<char>, after: Seq<Seq<char>>)
    requires
        forall|i: int|
            0 <= i < before.len() ==> says_something_else()(#[trigger] before[i]),
        forall|i: int| 0 <= i < after.len() ==> says_something_else()(#[trigger] after[i]),
    ensures
        first_bearer_key(before + seq![auth] + after) == bearer_key(auth),
    decreases before.len(),
{
    let lines = before + seq![auth] + after;
    if before.len() == 0 {
        assert(lines[0] == auth);
        assert(lines.skip(1) =~= after);
        assert forall|i: int| 0 <= i < after.len() implies header_value(
            #[trigger] after[i],
            "authorization"@,
        ) is None by {
            assert(says_something_else()(after[i]));
        }
        lemma_no_key(after);
    } else {
        let rest = before.skip(1);
        assert forall|i: int| 0 <= i < rest.len() implies says_something_else()(
            #[trigger] rest[i],
        ) by {
            assert(rest[i] == before[i + 1]);
        }
        lemma_first_key_behind(rest, auth, after);
        assert(lines[0] == before[0]);
        assert(says_something_else()(before[0]));
        assert(lines.skip(1) =~= rest + seq![auth] + after);
    }
}

/// The key of a request is the bearer token of the first line that has one.
pub proof fn law_first_bearer_key_counts(lines: Seq<Seq<char>>)
    ensures
        match first_bearer_key(lines) {
            Some(k) => exists|i: int|
                0 <= i < lines.len() && bearer_key(#[trigger] lines[i]) == Some(k) && forall|j: int|
                    0 <= j < i ==> bearer_key(#[trigger] lines[j]) is None,
            None => forall|i: int| 0 <= i < lines.len() ==> bearer_key(#[trigger] lines[i]) is None,
        },
    decreases lines.len(),
{
    if lines.len() > 0 && bearer_key(lines[0]) is None {
        let rest = lines.skip(1);
        law_first_bearer_key_counts(rest);
        match first_bearer_key(rest) {
            Some(k) => {
                let i = choose|i: int|
                    0 <= i < rest.len() && bearer_key(#[trigger] rest[i]) == Some(k) && forall|
                        j: int,
                    |
                        0 <= j < i ==> bearer_key(#[trigger] rest[j]) is None;
                assert(rest[i] == lines[i + 1]);
                assert forall|j: int| 0 <= j < i + 1 implies bearer_key(
                    #[trigger] lines[j],
                ) is None by {
                    if j > 0 {
                        assert(lines[j] == rest[j - 1]);
                    }
                }
            },
            None => {
                assert forall|j: int| 0 <= j < lines.len() implies bearer_key(
                    #[trigger] lines[j],
                ) is None by {
                    if j > 0 {
                        assert(lines[j] == rest[j - 1]);
                    }
                }
            },
        }
    }
}

/// The bearer token of an `Authorization` header is read as it was written, whatever the
/// case of the name and the white space around the value and around the token.
pub proof fn law_bearer_key_reads_back(
    n: Seq<char>,
    before: Seq<char>,
    between: Seq<char>,
    key: Seq<char>,
    after: Seq<char>,
)
    requires
        !n.contains(':'),
        text::same_ignoring_ascii_case(unicode::trim(n), "authorization"@),
        forall|k: int| 0 <= k < before.len() ==> unicode::is_space(#[trigger] before[k]),
        forall|k: int| 0 <= k < between.len() ==> unicode::is_space(#[trigger] between[k]),
        forall|k: int| 0 <= k < after.len() ==> unicode::is_space(#[trigger] after[k]),
        key.len() > 0,
        !unicode::is_space(key[0]),
        !unicode::is_space(key.last()),
    ensures
        bearer_key(n + seq![':'] + (before + ("Bearer "@ + (between + key)) + after)) == Some(key),
{
    reveal_strlit("Bearer ");
    let rest = between + key;
    let said = "Bearer "@ + rest;
    let v = before + said + after;
    law_header_is_known_by_its_name(n, v, "authorization"@);
    assert(said[0] == 'B');
    assert(said.last() == key.last());
    unicode::law_trim_ignores_outer_space(before, said, after);
    assert(said.subrange(0, 7) =~= "Bearer "@);
    assert(said.skip(7) =~= rest);
    let none = Seq::<char>::empty();
    unicode::law_trim_ignores_outer_space(between, key, none);
    assert(between + key + none =~= rest);
}

/// Only an `Authorization` header whose value begins with the scheme word has a bearer
/// token.
pub proof fn law_bearer_key_has_its_scheme(line: Seq<char>)
    requires
        bearer_key(line) is Some,
    ensures
        header_value(line, "authorization"@) is Some,
        "Bearer "@.is_prefix_of(unicode::trim(header_value(line, "authorization"@)->0)),
        bearer_key(line)->0.len() > 0 ==> !unicode::is_space(bearer_key(line)->0[0])
            && !unicode::is_space(bearer_key(line)->0.last()),
{
    let v = unicode::trim(header_value(line, "authorization"@)->0);
    unicode::law_trim_takes_outer_space(v.skip("Bearer "@.len() as int));
}

proof fn lemma_upgrade_in_small_letters()
    ensures
        text::same_ignoring_ascii_case("Connection: Upgrade"@, "connection: upgrade"@),
        "connection: upgrade"@.len() == 19,
{
    reveal_strlit("Connection: Upgrade");
    reveal_strlit("connection: upgrade");
    assert(text::ascii_lower_all("Connection: Upgrade"@) =~= text::ascii_lower_all(
        "connection: upgrade"@,
    ));
}

/// A request asks for a WebSocket where one of its lines is `Connection: Upgrade`, up to
/// case, and the lowercase form of one has `upgrade: websocket` in it.
pub proof fn law_websocket_is_asked_for(
    request: Seq<char>,
    i: int,
    j: int,
    a: Seq<char>,
    b: Seq<char>,
)
    requires
        0 <= i < unicode::lines(request).len(),
        0 <= j < unicode::lines(request).len(),
        text::same_ignoring_ascii_case(unicode::lines(request)[i], "Connection: Upgrade"@),
        unicode::lowered(unicode::lines(request)[j]) == a + "upgrade: websocket"@ + b,
    ensures
        asks_for_websocket(request),
{
    let lines = unicode::lines(request);
    let said = "upgrade: websocket"@;
    lemma_upgrade_in_small_letters();
    assert(text::same_ignoring_ascii_case(lines[i], "connection: upgrade"@));
    text::law_middle_is_contained(a, said, b);
    assert(text::contains(unicode::lowered(lines[j]), said));
}

/// A request asks for a WebSocket only where some line is `Connection: Upgrade`, up to case,
/// and the lowercase form of some line has `upgrade: websocket` in it.
pub proof fn law_no_websocket_unasked(request: Seq<char>)
    requires
        asks_for_websocket(request),
    ensures
        exists|k: int|
            0 <= k < unicode::lines(request).len() && text::same_ignoring_ascii_case(
                #[trigger] unicode::lines(request)[k],
                "Connection: Upgrade"@,
            ),
        exists|k: int, a: Seq<char>, b: Seq<char>|
            0 <= k < unicode::lines(request).len() && unicode::lowered(
                #[trigger] unicode::lines(request)[k],
            ) == #[trigger] (a + "upgrade: websocket"@ + b),
{
    let lines = unicode::lines(request);
    let said = "upgrade: websocket"@;
    lemma_upgrade_in_small_letters();
    let k = choose|k: int|
        0 <= k < lines.len() && text::same_ignoring_ascii_case(
            #[trigger] lines[k],
            "connection: upgrade"@,
        );
    assert(text::same_ignoring_ascii_case(lines[k], "Connection: Upgrade"@));
    let m = choose|m: int|
        0 <= m < lines.len() && text::contains(unicode::lowered(#[trigger] lines[m]), said);
    let low = unicode::lowered(lines[m]);
    let at = choose|at: int| text::matches_at(low, said, at);
    assert(low.take(at) + said + low.skip(at + said.len()) =~= low);
}

} // verus!
