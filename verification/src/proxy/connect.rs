//! `CONNECT` requests: whether a machine may reach a host, where the connection
//! goes, and what goes through it first.

use vstd::prelude::*;
use vstd::utf8::*;

use super::rewrite::{is_websocket_upgrade, rewrite_request};
use crate::numbers;
use crate::session::store::{SessionStore, StoreView};
use crate::session::{AllowlistEntry, EntryView};
use crate::strmap::StrMap;
use crate::text;
use crate::unicode;

verus! {

// ---------------------------------------------------------------------------
// Host and port
// ---------------------------------------------------------------------------

/// `host` and `port` as they are written in an address.
pub open spec fn address_text(host: Seq<char>, port: u16) -> Seq<char> {
    host + ":"@ + numbers::decimal(port as nat)
}

/// `host` and `port` as they are written in an address.
pub fn address(host: &str, port: u16) -> (s: String)
    ensures
        s@ == address_text(host@, port),
{
    let mut s = host.to_owned();
    s.append(":");
    s.append(numbers::number_string(port as u64).as_str());
    s
}

/// The target of a `CONNECT` request: its host and port, or all of its URI where
/// that names no host.
pub open spec fn target_text(host: Seq<char>, port: Option<u16>, uri: Seq<char>) -> Seq<char> {
    if host.len() == 0 {
        uri
    } else {
        address_text(
            host,
            match port {
                Some(p) => p,
                None => 443,
            },
        )
    }
}

/// The target of a `CONNECT` request.
pub fn connect_target(host: &str, port: Option<u16>, uri: &str) -> (s: String)
    ensures
        s@ == target_text(host@, port, uri@),
{
    if host.is_empty() {
        uri.to_owned()
    } else {
        let p: u16 = match port {
            Some(p) => p,
            None => 443,
        };
        address(host, p)
    }
}

/// The host and the port of a target: what stands before its last colon and after
/// it. The port is 443 where none is written, or none that is a port.
pub open spec fn target_parts(target: Seq<char>) -> (Seq<char>, u16) {
    match text::last_index(target, ':') {
        Some(i) => (
            target.take(i),
            match numbers::parsed(target.skip(i + 1), 65535) {
                Some(p) => p as u16,
                None => 443,
            },
        ),
        None => (target, 443),
    }
}

/// The host and the port of a target.
pub fn split_target(target: &str) -> (r: (String, u16))
    ensures
        (r.0@, r.1) == target_parts(target@),
{
    let cs = text::chars_of(target);
    let n: usize = cs.len();
    match text::last_index_of_char(cs.as_slice(), ':') {
        Some(i) => {
            let host = text::copy_range(cs.as_slice(), 0, i);
            let rest = text::copy_range(cs.as_slice(), i + 1, n);
            proof {
                assert(host@ =~= target@.take(i as int));
                assert(rest@ =~= target@.skip(i + 1));
            }
            let port: u16 = match numbers::parse_number(rest.as_slice(), 65535) {
                Some(p) => p as u16,
                None => 443,
            };
            (text::string_of(host.as_slice()), port)
        },
        None => (target.to_owned(), 443),
    }
}

/// Where a connection goes: to the host and port that were asked for, unless others
/// are set for all connections.
pub open spec fn upstream_text(
    host: Seq<char>,
    port: u16,
    upstream_host: Seq<char>,
    upstream_port: u16,
) -> Seq<char> {
    address_text(
        if upstream_host.len() == 0 {
            host
        } else {
            upstream_host
        },
        if upstream_port != 0 {
            upstream_port
        } else {
            port
        },
    )
}

/// Where a connection goes.
pub fn upstream_address(host: &str, port: u16, upstream_host: &str, upstream_port: u16) -> (s:
    String)
    ensures
        s@ == upstream_text(host@, port, upstream_host@, upstream_port),
{
    let p: u16 = if upstream_port != 0 {
        upstream_port
    } else {
        port
    };
    if upstream_host.is_empty() {
        address(host, p)
    } else {
        address(upstream_host, p)
    }
}

// ---------------------------------------------------------------------------
// Whether a machine may reach a host
// ---------------------------------------------------------------------------

/// Whether two host names are the same up to case.
pub open spec fn same_host(a: Seq<char>, b: Seq<char>) -> bool {
    unicode::lowered(a) == unicode::lowered(b)
}

/// Whether `i` is the first entry for that host.
pub open spec fn first_entry(allowlist: Seq<EntryView>, host: Seq<char>, i: int) -> bool {
    &&& 0 <= i < allowlist.len()
    &&& same_host(allowlist[i].domain, host)
    &&& forall|j: int| 0 <= j < i ==> !same_host((#[trigger] allowlist[j]).domain, host)
}

/// Whether some entry is for that host.
pub open spec fn allows(allowlist: Seq<EntryView>, host: Seq<char>) -> bool {
    exists|i: int| 0 <= i < allowlist.len() && same_host((#[trigger] allowlist[i]).domain, host)
}

/// The index of the first entry for that host.
pub fn find_entry(allowlist: &Vec<AllowlistEntry>, host: &str) -> (r: Option<usize>)
    ensures
        match r {
            Some(i) => first_entry(crate::session::entry_views(allowlist@), host@, i as int),
            None => !allows(crate::session::entry_views(allowlist@), host@),
        },
        match r {
            Some(i) => i < allowlist@.len() && unicode::lowered(allowlist@[i as int].domain@)
                == unicode::lowered(host@) && forall|j: int|
                0 <= j < i ==> unicode::lowered((#[trigger] allowlist@[j]).domain@)
                    != unicode::lowered(host@),
            None => forall|j: int|
                0 <= j < allowlist@.len() ==> unicode::lowered((#[trigger] allowlist@[j]).domain@)
                    != unicode::lowered(host@),
        },
{
    let ghost all = crate::session::entry_views(allowlist@);
    let want = unicode::lowercase(host);
    let mut i: usize = 0;
    while i < allowlist.len()
        invariant
            all == crate::session::entry_views(allowlist@),
            want@ == unicode::lowered(host@),
            i <= allowlist@.len(),
            forall|j: int| 0 <= j < i ==> !same_host((#[trigger] all[j]).domain, host@),
            forall|j: int|
                0 <= j < i ==> unicode::lowered((#[trigger] allowlist@[j]).domain@)
                    != unicode::lowered(host@),
        decreases allowlist@.len() - i,
    {
        assert(all[i as int] == allowlist@[i as int]@);
        let have = unicode::lowercase(allowlist[i].domain.as_str());
        if text::same_str(have.as_str(), want.as_str()) {
            return Some(i);
        }
        i = i + 1;
    }
    None
}

/// What is to become of a `CONNECT` request.
pub enum Ruling {
    /// It is refused: the machine has no session.
    NoSession,
    /// It is refused: the host is not on the list of the session with that id.
    NotAllowed(String),
    /// Bytes are handed on as they are, for the session with that id.
    Tunnel(String),
    /// TLS ends here and keys are swapped, for the session with that id. The map
    /// gives the real key of each of its dummy keys.
    Mitm(String, StrMap<String>),
}

/// Whether `r` is what becomes of a request of the machine at `peer` for `host`.
pub open spec fn judged(v: StoreView, peer: Option<Seq<char>>, host: Seq<char>, r: Ruling) -> bool {
    if peer is None || !v.sessions.dom().contains(peer->0) {
        r is NoSession
    } else {
        let s = v.sessions[peer->0];
        match r {
            Ruling::NoSession => false,
            Ruling::NotAllowed(id) => !allows(s.allowlist, host) && id@ == s.session_id,
            Ruling::Tunnel(id) => id@ == s.session_id && exists|i: int| #[trigger]
                first_entry(s.allowlist, host, i) && s.allowlist[i].mode == "tunnel"@,
            Ruling::Mitm(id, keys) => {
                &&& id@ == s.session_id
                &&& exists|i: int| #[trigger]
                    first_entry(s.allowlist, host, i) && s.allowlist[i].mode != "tunnel"@
                &&& crate::strmap::text_map(keys@) == crate::session::store::key_map_of(
                    v,
                    s.session_id,
                )
            },
        }
    }
}

/// What is to become of a `CONNECT` request of the machine at `peer` for `host`.
pub fn judge(store: &SessionStore, peer: Option<&str>, host: &str) -> (r: Ruling)
    ensures
        judged(
            store@,
            match peer {
                Some(p) => Some(p@),
                None => None,
            },
            host@,
            r,
        ),
{
    let session = match peer {
        Some(p) => match store.get_by_ip(p) {
            Some(s) => s,
            None => {
                return Ruling::NoSession;
            },
        },
        None => {
            return Ruling::NoSession;
        },
    };
    let ghost all = crate::session::entry_views(session.allowlist@);
    match find_entry(&session.allowlist, host) {
        None => Ruling::NotAllowed(session.session_id),
        Some(i) => {
            assert(first_entry(all, host@, i as int));
            assert(all[i as int] == session.allowlist@[i as int]@);
            if text::same_str(session.allowlist[i].mode.as_str(), "tunnel") {
                Ruling::Tunnel(session.session_id)
            } else {
                let keys = store.key_map(session.session_id.as_str());
                Ruling::Mitm(session.session_id, keys)
            }
        },
    }
}

impl Ruling {
    /// The HTTP status that the request is answered with.
    pub fn status(&self) -> (n: u16)
        ensures
            n == (if self is NoSession || self is NotAllowed {
                403u16
            } else {
                200u16
            }),
    {
        match self {
            Ruling::NoSession => 403,
            Ruling::NotAllowed(_) => 403,
            Ruling::Tunnel(_) => 200,
            Ruling::Mitm(_, _) => 200,
        }
    }

    /// The kind under which the request is counted.
    pub fn kind(&self) -> (s: &'static str)
        ensures
            s@ == (match self {
                Ruling::NoSession => "dropped"@,
                Ruling::NotAllowed(_) => "dropped"@,
                Ruling::Tunnel(_) => "tunnel"@,
                Ruling::Mitm(_, _) => "mitm"@,
            }),
    {
        match self {
            Ruling::NoSession => "dropped",
            Ruling::NotAllowed(_) => "dropped",
            Ruling::Tunnel(_) => "tunnel",
            Ruling::Mitm(_, _) => "mitm",
        }
    }
}

// ---------------------------------------------------------------------------
// What goes through first
// ---------------------------------------------------------------------------

/// The reply to a request that may not go on.
pub open spec fn forbidden_text() -> Seq<char> {
    "HTTP/1.1 403 Forbidden\r\nContent-Length: 0\r\n\r\n"@
}

/// What becomes of the first request on a connection into which keys are put.
pub enum Forward {
    /// It goes on as it is: it asks for a WebSocket.
    Unchanged(Vec<u8>),
    /// It goes on in this form, with the real key in place of the dummy key.
    Rewritten(Vec<u8>),
    /// It does not go on: the client gets this reply, and the connection is closed.
    Refused(Vec<u8>),
}

/// Whether `r` is what becomes of the request `raw` to `host`.
pub open spec fn forwarded(
    raw: Seq<u8>,
    keys: Map<Seq<char>, String>,
    host: Seq<char>,
    r: Forward,
) -> bool {
    let request = unicode::decoded(raw);
    let sent = super::rewrite::first_bearer_key(text::split(request, text::crlf()));
    if super::rewrite::asks_for_websocket(request) {
        r matches Forward::Unchanged(b) && b@ == raw
    } else if sent is Some && keys.dom().contains(sent->0) {
        r matches Forward::Rewritten(b) && b@ == encode_utf8(
            super::rewrite::rewritten(request, keys[sent->0]@, host),
        )
    } else {
        r matches Forward::Refused(b) && b@ == encode_utf8(forbidden_text())
    }
}

/// What becomes of the first request on a connection to `host`.
pub fn forward(raw: Vec<u8>, keys: &StrMap<String>, host: &str) -> (r: Forward)
    ensures
        forwarded(raw@, keys@, host@, r),
{
    if is_websocket_upgrade(raw.as_slice()) {
        return Forward::Unchanged(raw);
    }
    match rewrite_request(raw.as_slice(), keys, host) {
        Ok(out) => Forward::Rewritten(out),
        Err(_) => {
            let s = "HTTP/1.1 403 Forbidden\r\nContent-Length: 0\r\n\r\n";
            Forward::Refused(vstd::slice::slice_to_vec(s.as_bytes()))
        },
    }
}

// ---------------------------------------------------------------------------
// Laws
// ---------------------------------------------------------------------------

/// Nothing is reachable unless it was allowed: a request goes on only where the
/// machine has a session and an entry of that session is for the host.
pub proof fn law_deny_by_default(
    v: StoreView,
    peer: Option<Seq<char>>,
    host: Seq<char>,
    r: Ruling,
)
    requires
        judged(v, peer, host, r),
    ensures
        (r is Tunnel || r is Mitm) <==> (peer is Some && v.sessions.dom().contains(peer->0)
            && allows(v.sessions[peer->0].allowlist, host)),
{
    if peer is Some && v.sessions.dom().contains(peer->0) {
        let l = v.sessions[peer->0].allowlist;
        if r is Tunnel || r is Mitm {
            let i = choose|i: int| #[trigger] first_entry(l, host, i);
            assert(same_host(l[i].domain, host));
        }
    }
}

/// Once a session is deleted, the machine that had it reaches nothing.
pub proof fn law_deleted_session_reaches_nothing(
    v: StoreView,
    id: Seq<char>,
    host: Seq<char>,
    r: Ruling,
)
    requires
        crate::session::store::sessions_ok(v.sessions),
        crate::session::store::id_known(v.sessions, id),
        judged(
            crate::session::store::without_session(v, id),
            Some(crate::session::store::address_of(v.sessions, id)),
            host,
            r,
        ),
    ensures
        r is NoSession,
{
}

/// One machine's session says nothing of another's: what becomes of a request
/// depends only on the session at the machine's own address and on its keys.
pub proof fn law_sessions_are_apart(
    v: StoreView,
    w: StoreView,
    peer: Seq<char>,
    host: Seq<char>,
    r: Ruling,
)
    requires
        v.sessions.dom().contains(peer),
        w.sessions.dom().contains(peer),
        v.sessions[peer] == w.sessions[peer],
        crate::session::store::key_map_of(v, v.sessions[peer].session_id)
            == crate::session::store::key_map_of(w, v.sessions[peer].session_id),
    ensures
        judged(v, Some(peer), host, r) <==> judged(w, Some(peer), host, r),
{
}

/// The host and port that are written in a target are read off it again, whatever
/// the host.
pub proof fn law_target_reads_back(host: Seq<char>, port: u16)
    ensures
        target_parts(address_text(host, port)) == (host, port),
{
    let digits = numbers::decimal(port as nat);
    let t = address_text(host, port);
    let n = host.len() as int;
    reveal_strlit(":");
    numbers::lemma_decimal_reads_back(port as nat);
    assert forall|j: int| n < j < t.len() implies t[j] != ':' by {
        assert(t[j] == digits[j - n - 1]);
        assert(numbers::is_digit(digits[j - n - 1]));
    }
    assert(t[n] == ':');
    lemma_last_index(t, ':', n);
    assert(t.take(n) =~= host);
    assert(t.skip(n + 1) =~= digits);
    assert(numbers::is_digit(digits[0]));
    assert(numbers::unsigned_part(digits) == digits);
}

proof fn lemma_last_index(s: Seq<char>, c: char, n: int)
    requires
        0 <= n < s.len(),
        s[n] == c,
        forall|j: int| n < j < s.len() ==> s[j] != c,
    ensures
        text::last_index(s, c) == Some(n),
    decreases s.len(),
{
    if s.len() > n + 1 {
        lemma_last_index(s.drop_last(), c, n);
    }
}

/// Once the sessions that have ended are taken out, the machine of one that has ended
/// reaches nothing.
pub proof fn law_ended_session_reaches_nothing(
    v: StoreView,
    now: u64,
    peer: Seq<char>,
    host: Seq<char>,
    r: Ruling,
)
    requires
        v.sessions.dom().contains(peer),
        crate::session::store::session_ended(v.sessions[peer], now),
        judged(
            StoreView { sessions: crate::session::store::lasting(v.sessions, now), ..v },
            Some(peer),
            host,
            r,
        ),
    ensures
        r is NoSession,
{
}

/// Host names are compared whole, up to case: each is the same as itself, the order does
/// not matter, and names in ASCII that are the same have one length and differ at most in
/// the case of letters.
pub proof fn law_host_names_are_compared_whole(a: Seq<char>, b: Seq<char>, c: Seq<char>)
    ensures
        same_host(a, a),
        same_host(a, b) <==> same_host(b, a),
        same_host(a, b) && same_host(b, c) ==> same_host(a, c),
        same_host(a, b) <==> unicode::lowered(a) == unicode::lowered(b),
        is_ascii_chars(a) && is_ascii_chars(b) ==> {
            &&& same_host(a, b) <==> text::same_ignoring_ascii_case(a, b)
            &&& same_host(a, b) ==> a.len() == b.len()
        },
{
    text::law_case_is_all_that_differs(a, b);
}

/// A request goes on only where the domain of some entry of the machine's own session
/// equals the host, up to case, and it goes on in the way that the first such entry says.
pub proof fn law_only_listed_hosts_are_reached(
    v: StoreView,
    peer: Seq<char>,
    host: Seq<char>,
    i: int,
    r: Ruling,
)
    requires
        v.sessions.dom().contains(peer),
        judged(v, Some(peer), host, r),
    ensures
        ({
            let l = v.sessions[peer].allowlist;
            let id = v.sessions[peer].session_id;
            &&& (r is Tunnel || r is Mitm) <==> exists|k: int|
                0 <= k < l.len() && unicode::lowered((#[trigger] l[k]).domain) == unicode::lowered(
                    host,
                )
            &&& r is NotAllowed <==> forall|k: int|
                0 <= k < l.len() ==> unicode::lowered((#[trigger] l[k]).domain) != unicode::lowered(
                    host,
                )
            &&& (0 <= i < l.len() && unicode::lowered(l[i].domain) == unicode::lowered(host)
                && forall|k: int|
                0 <= k < i ==> unicode::lowered((#[trigger] l[k]).domain) != unicode::lowered(host))
                ==> (r is Tunnel <==> l[i].mode == "tunnel"@) && (r is Mitm <==> l[i].mode
                != "tunnel"@)
            &&& r matches Ruling::NotAllowed(name) ==> name@ == id
            &&& r matches Ruling::Tunnel(name) ==> name@ == id
            &&& r matches Ruling::Mitm(name, keys) ==> name@ == id && (v.key_maps.dom().contains(id)
                ==> crate::strmap::text_map(keys@) == v.key_maps[id])
        }),
{
    let l = v.sessions[peer].allowlist;
    if r is Tunnel || r is Mitm {
        let k = choose|k: int| #[trigger]
            first_entry(l, host, k) && (r is Tunnel <==> l[k].mode == "tunnel"@);
        assert(unicode::lowered(l[k].domain) == unicode::lowered(host));
        if 0 <= i < l.len() && unicode::lowered(l[i].domain) == unicode::lowered(host) && (forall|
            j: int,
        |
            0 <= j < i ==> unicode::lowered((#[trigger] l[j]).domain) != unicode::lowered(host)) {
            if k < i {
                assert(unicode::lowered(l[k].domain) != unicode::lowered(host));
            } else if i < k {
                assert(!same_host(l[i].domain, host));
            }
        }
    } else {
        assert(!allows(l, host));
        assert forall|k: int| 0 <= k < l.len() implies unicode::lowered((#[trigger] l[k]).domain)
            != unicode::lowered(host) by {
            assert(!same_host(l[k].domain, host));
        }
    }
}

/// A machine without a session is refused.
pub proof fn law_no_session_no_connection(
    v: StoreView,
    peer: Option<Seq<char>>,
    host: Seq<char>,
    r: Ruling,
)
    requires
        judged(v, peer, host, r),
    ensures
        r is NoSession <==> (peer matches Some(ip) ==> !v.sessions.dom().contains(ip)),
{
}

proof fn lemma_no_index(s: Seq<char>, c: char)
    requires
        !s.contains(c),
    ensures
        text::last_index(s, c) is None,
    decreases s.len(),
{
    if s.len() > 0 {
        let init = s.drop_last();
        assert(s.contains(s[s.len() - 1]));
        if init.contains(c) {
            let k = init.index_of(c);
            assert(s[k] == c);
        }
        lemma_no_index(init, c);
    }
}

/// The host and the port of a request are those that its URI names: 443 is the port where
/// it names none, and where it names no host, its text is taken as it is.
pub proof fn law_target_is_what_was_asked_for(host: Seq<char>, port: Option<u16>, uri: Seq<char>)
    ensures
        host.len() > 0 ==> target_parts(target_text(host, port, uri)) == (
            host,
            match port {
                Some(p) => p,
                None => 443u16,
            },
        ),
        host.len() == 0 ==> target_text(host, port, uri) == uri,
        !uri.contains(':') ==> target_parts(uri) == (uri, 443u16),
{
    law_target_reads_back(
        host,
        match port {
            Some(p) => p,
            None => 443,
        },
    );
    if !uri.contains(':') {
        lemma_no_index(uri, ':');
    }
}

/// A connection goes to the host and the port that were asked for, unless another host or
/// another port is set.
pub proof fn law_connection_goes_where_asked(
    host: Seq<char>,
    port: u16,
    upstream_host: Seq<char>,
    upstream_port: u16,
)
    ensures
        ({
            let (h, p) = target_parts(upstream_text(host, port, upstream_host, upstream_port));
            &&& upstream_host.len() == 0 ==> h == host
            &&& upstream_host.len() > 0 ==> h == upstream_host
            &&& upstream_port == 0 ==> p == port
            &&& upstream_port > 0 ==> p == upstream_port
        }),
{
    let h = if upstream_host.len() == 0 {
        host
    } else {
        upstream_host
    };
    let p = if upstream_port != 0 {
        upstream_port
    } else {
        port
    };
    law_target_reads_back(h, p);
}

/// A request for a WebSocket goes on as it is. Of the others, one goes on exactly where its
/// key is a dummy key of the session, with the real key of that dummy key and with all that
/// is neither key nor host as it was; any other is answered with status 403.
pub proof fn law_request_goes_on_with_known_key(
    raw: Seq<u8>,
    keys: Map<Seq<char>, String>,
    host: Seq<char>,
    r: Forward,
)
    requires
        forwarded(raw, keys, host, r),
    ensures
        ({
            let lines = text::split(unicode::decoded(raw), text::crlf());
            let sent = super::rewrite::first_bearer_key(lines);
            let websocket = super::rewrite::asks_for_websocket(unicode::decoded(raw));
            let known = sent matches Some(k) && keys.dom().contains(k);
            &&& websocket <==> r is Unchanged
            &&& r matches Forward::Unchanged(b) ==> b@ == raw
            &&& !websocket ==> (known <==> r is Rewritten) && (!known <==> r is Refused)
            &&& r matches Forward::Rewritten(b) ==> exists|out: Seq<Seq<char>>|
                {
                    let rest = super::rewrite::says_something_else();
                    &&& b@ == encode_utf8(#[trigger] text::join(out, text::crlf()))
                    &&& out.filter(rest) == lines.filter(rest)
                    &&& out.len() > 1 ==> out[1] == "Authorization: Bearer "@ + keys[sent->0]@
                }
            &&& r matches Forward::Refused(b) ==> b@ == encode_utf8(
                "HTTP/1.1 403 Forbidden\r\nContent-Length: 0\r\n\r\n"@,
            )
        }),
{
    let lines = text::split(unicode::decoded(raw), text::crlf());
    let sent = super::rewrite::first_bearer_key(lines);
    if r is Rewritten {
        let key = keys[sent->0]@;
        let out = super::rewrite::rewritten_lines(lines, key, host);
        super::rewrite::law_other_lines_go_on_unchanged(lines, key, host);
        super::rewrite::law_lines_keep_their_places(lines, key, host);
        assert(super::rewrite::rewritten(unicode::decoded(raw), key, host) == text::join(
            out,
            text::crlf(),
        ));
    }
}

/// A request that does not go on is answered with status 403 and counted as dropped; one
/// that does is answered with 200 and counted by the way it goes.
pub proof fn law_ruling_is_answered_and_counted(r: Ruling, status: u16, kind: &'static str)
    requires
        call_ensures(Ruling::status, (&r,), status),
        call_ensures(Ruling::kind, (&r,), kind),
    ensures
        status == 200 <==> r is Tunnel || r is Mitm,
        status == 403 <==> r is NoSession || r is NotAllowed,
        r is Tunnel ==> kind@ == "tunnel"@,
        r is Mitm ==> kind@ == "mitm"@,
        status == 403 ==> kind@ == "dropped"@,
{
}

/// A target is split at its last colon. What follows is the port where it is a number up to
/// 65535, and else the port is 443.
pub proof fn law_target_is_split_at_last_colon(host: Seq<char>, port: Seq<char>)
    requires
        !port.contains(':'),
    ensures
        target_parts(host + seq![':'] + port) == (
            host,
            match numbers::parsed(port, 65535) {
                Some(p) => p as u16,
                None => 443u16,
            },
        ),
{
    let t = host + seq![':'] + port;
    let n = host.len() as int;
    assert(t[n] == ':');
    assert forall|j: int| n < j < t.len() implies t[j] != ':' by {
        assert(t[j] == port[j - n - 1]);
        assert(port.contains(port[j - n - 1]));
    }
    lemma_last_index(t, ':', n);
    assert(t.take(n) =~= host);
    assert(t.skip(n + 1) =~= port);
}

} // verus!
