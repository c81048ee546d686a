//! The session interface: registering, showing, listing and deleting sessions.

use vstd::prelude::*;

use super::reply::{error_response, json_response, BodyView, Reply, ReplyBody, ReplyView};
use crate::numbers;
use crate::session::store::{SessionStore, StoreView};
use crate::session::{SessionListResponse, SessionResponse, SessionResponseView, SessionSummary, SessionSummaryView, SessionView};
use crate::text::{self, prefixed};

verus! {

// ---------------------------------------------------------------------------
// Routes
// ---------------------------------------------------------------------------

/// What a request of the session interface asks for.
#[derive(Debug)]
pub enum Route {
    /// To register a session.
    Create,
    /// To list the sessions.
    List,
    /// To show the session with that id.
    Get(String),
    /// To delete the session with that id.
    Delete(String),
    /// How the proxy is.
    Health,
    /// Something else.
    Unknown,
}

/// What follows `/sessions/` in a path.
pub open spec fn path_session(path: Seq<char>) -> Option<Seq<char>> {
    let p = "/sessions/"@;
    if p.is_prefix_of(path) && path.len() > p.len() {
        Some(path.skip(p.len() as int))
    } else {
        None
    }
}

/// Whether `r` is what a request with that method and path asks for.
pub open spec fn routes_to(method: Seq<char>, path: Seq<char>, r: Route) -> bool {
    let get = method == "GET"@;
    if path == "/sessions"@ && method == "POST"@ {
        r is Create
    } else if path == "/sessions"@ && get {
        r is List
    } else if path_session(path) is Some && get {
        r matches Route::Get(id) && path_session(path) == Some(id@)
    } else if path_session(path) is Some && method == "DELETE"@ {
        r matches Route::Delete(id) && path_session(path) == Some(id@)
    } else if path == "/health"@ && get {
        r is Health
    } else {
        r is Unknown
    }
}

fn session_in_path(path: &str) -> (r: Option<String>)
    ensures
        match r {
            Some(id) => path_session(path@) == Some(id@),
            None => path_session(path@) is None,
        },
{
    let cs = text::chars_of(path);
    let p = text::chars_of("/sessions/");
    if text::begins_with(cs.as_slice(), p.as_slice()) && cs.len() > p.len() {
        let rest = text::copy_range(cs.as_slice(), p.len(), cs.len());
        proof {
            assert(rest@ =~= path@.skip(p@.len() as int));
        }
        Some(text::string_of(rest.as_slice()))
    } else {
        None
    }
}

/// What a request with that method and path asks for.
pub fn route(method: &str, path: &str) -> (r: Route)
    ensures
        routes_to(method@, path@, r),
{
    let is_get = text::same_str(method, "GET");
    if text::same_str(path, "/sessions") {
        if text::same_str(method, "POST") {
            return Route::Create;
        }
        if is_get {
            return Route::List;
        }
    }
    match session_in_path(path) {
        Some(id) => {
            if is_get {
                return Route::Get(id);
            }
            if text::same_str(method, "DELETE") {
                return Route::Delete(id);
            }
        },
        None => {},
    }
    if text::same_str(path, "/health") && is_get {
        return Route::Health;
    }
    Route::Unknown
}

/// The reply to a request for something unknown.
pub open spec fn unknown_route_reply() -> ReplyView {
    super::reply::text_reply(
        404,
        "{\"error\":{\"code\":\"INVALID_REQUEST\",\"message\":\"unknown route\"}}"@,
    )
}

/// The reply to a request for something unknown.
pub fn unknown_route() -> (r: Reply)
    ensures
        r@ == unknown_route_reply(),
{
    json_response(
        404,
        "{\"error\":{\"code\":\"INVALID_REQUEST\",\"message\":\"unknown route\"}}",
    )
}

/// The reply, on the port for traffic, to any request but `CONNECT`.
pub fn connect_only() -> (r: Reply)
    ensures
        r@ == super::reply::text_reply(
            403,
            "{\"error\":{\"code\":\"INVALID_REQUEST\",\"message\":\"TCP port accepts CONNECT only. REST API is on the unix socket.\"}}"@,
        ),
{
    json_response(
        403,
        "{\"error\":{\"code\":\"INVALID_REQUEST\",\"message\":\"TCP port accepts CONNECT only. REST API is on the unix socket.\"}}",
    )
}

// ---------------------------------------------------------------------------
// Showing, listing, deleting, health
// ---------------------------------------------------------------------------

/// The reply where there is no session with that id.
pub open spec fn not_found_reply(id: Seq<char>) -> ReplyView {
    super::reply::error_reply(404, "SESSION_NOT_FOUND"@, "session not found: "@ + id)
}

fn not_found(id: &str) -> (r: Reply)
    ensures
        r@ == not_found_reply(id@),
{
    error_response(404, "SESSION_NOT_FOUND", prefixed("session not found: ", id).as_str())
}

/// The session with that id as it is told to a client, with what was counted of it.
pub open spec fn shown(v: StoreView, id: Seq<char>) -> SessionResponseView {
    let s = v.sessions[crate::session::store::address_of(v.sessions, id)];
    SessionResponseView {
        stats: if v.stats.dom().contains(id) {
            Some(v.stats[id])
        } else {
            None
        },
        ..crate::session::told(s)
    }
}

/// The reply to a request for the session with that id.
pub open spec fn get_reply(v: StoreView, id: Seq<char>) -> ReplyView {
    if crate::session::store::id_known(v.sessions, id) {
        ReplyView { status: 200, body: BodyView::Session(shown(v, id)) }
    } else {
        not_found_reply(id)
    }
}

/// Shows the session with that id.
pub fn handle_get_session(store: &SessionStore, session_id: &str) -> (r: Reply)
    ensures
        r@ == get_reply(store@, session_id@),
{
    match store.get(session_id) {
        Some(session) => {
            let mut told = SessionResponse::from_session(&session);
            told.stats = store.get_stats(session_id);
            Reply { status: 200, body: ReplyBody::Session(told) }
        },
        None => not_found(session_id),
    }
}

/// The reply to a request to delete the session with that id, where the database
/// answers `erased`.
pub open spec fn delete_reply(
    v: StoreView,
    id: Seq<char>,
    erased: Result<(), Seq<char>>,
) -> ReplyView {
    if !crate::session::store::id_known(v.sessions, id) {
        not_found_reply(id)
    } else {
        match erased {
            Ok(_) => ReplyView { status: 204, body: BodyView::Empty },
            Err(e) => super::reply::error_reply(500, "INTERNAL_ERROR"@, "sqlite: "@ + e),
        }
    }
}

/// The view of an answer of the database.
pub open spec fn answer_view(r: Result<(), String>) -> Result<(), Seq<char>> {
    match r {
        Ok(_) => Ok(()),
        Err(e) => Err(e@),
    }
}

/// Deletes the session with that id, once the database has answered.
pub fn handle_delete_session(
    store: &mut SessionStore,
    session_id: &str,
    erased: Result<(), String>,
) -> (r: Reply)
    ensures
        r@ == delete_reply(old(store)@, session_id@, answer_view(erased)),
        final(store)@ == (if crate::session::store::id_known(old(store)@.sessions, session_id@)
            && erased is Ok {
            crate::session::store::without_session(old(store)@, session_id@)
        } else {
            old(store)@
        }),
        crate::session::store::store_ok(final(store)@),
{
    match store.finish_delete(session_id, erased) {
        Ok(true) => Reply { status: 204, body: ReplyBody::Empty },
        Ok(false) => not_found(session_id),
        Err(e) => error_response(500, "INTERNAL_ERROR", e.message().as_str()),
    }
}

/// The list of the sessions at those addresses.
pub open spec fn listed(m: Map<Seq<char>, SessionView>, order: Seq<Seq<char>>) -> Seq<
    SessionSummaryView,
> {
    Seq::new(order.len(), |i: int| crate::session::summed_up(m[order[i]]))
}

/// Lists the sessions, each once.
pub fn handle_list_sessions(store: &SessionStore) -> (r: Reply)
    ensures
        r@ == (ReplyView {
            status: 200,
            body: BodyView::Sessions(listed(store@.sessions, store.order())),
        }),
        store.order().no_duplicates(),
        store.order().to_set() == store@.sessions.dom(),
{
    let all = store.list();
    let mut sessions: Vec<SessionSummary> = Vec::new();
    let mut i: usize = 0;
    while i < all.len()
        invariant
            i <= all@.len(),
            all@.len() == store.order().len(),
            forall|j: int|
                0 <= j < all@.len() ==> (#[trigger] all@[j])@ == store@.sessions[store.order()[j]],
            sessions@.len() == i,
            forall|j: int|
                0 <= j < i ==> (#[trigger] sessions@[j])@ == crate::session::summed_up(
                    store@.sessions[store.order()[j]],
                ),
        decreases all@.len() - i,
    {
        let line = SessionSummary::from_session(&all[i]);
        assert(all@[i as int]@ == store@.sessions[store.order()[i as int]]);
        sessions.push(line);
        i = i + 1;
    }
    proof {
        assert(crate::session::summary_views(sessions@) =~= listed(
            store@.sessions,
            store.order(),
        ));
    }
    Reply { status: 200, body: ReplyBody::Sessions(SessionListResponse { sessions }) }
}

/// The JSON text of the proxy's health.
pub open spec fn health_body(ca_cert_sha256: Seq<char>, count: nat, uptime: nat) -> Seq<char> {
    "{\"status\":\"ok\",\"ca_cert_sha256\":\""@ + ca_cert_sha256 + "\",\"active_sessions\":"@
        + numbers::decimal(count) + ",\"uptime_secs\":"@ + numbers::decimal(uptime) + "}"@
}

/// The seconds from `start` to `now`; 0 if the clock went back.
pub open spec fn uptime(start: u64, now: u64) -> nat {
    if now >= start {
        (now - start) as nat
    } else {
        0
    }
}

/// Tells how the proxy is.
pub fn handle_health(store: &SessionStore, ca_cert_sha256: &str, start_time: u64, now: u64) -> (r:
    Reply)
    ensures
        r@ == super::reply::text_reply(
            200,
            health_body(ca_cert_sha256@, store@.sessions.len(), uptime(start_time, now)),
        ),
{
    let up: u64 = if now >= start_time {
        now - start_time
    } else {
        0
    };
    let n: usize = store.count();
    let mut body = "{\"status\":\"ok\",\"ca_cert_sha256\":\"".to_owned();
    body.append(ca_cert_sha256);
    body.append("\",\"active_sessions\":");
    body.append(numbers::number_string(n as u64).as_str());
    body.append(",\"uptime_secs\":");
    body.append(numbers::number_string(up).as_str());
    body.append("}");
    Reply { status: 200, body: ReplyBody::Text(body) }
}

// ---------------------------------------------------------------------------
// Laws
// ---------------------------------------------------------------------------

/// The path of a session leads to it, whatever its name.
pub proof fn law_session_path_leads_to_session(id: Seq<char>, get: Route, delete: Route, r: Route)
    requires
        id.len() > 0,
        routes_to("GET"@, "/sessions/"@ + id, get),
        routes_to("DELETE"@, "/sessions/"@ + id, delete),
        routes_to("POST"@, "/sessions/"@ + id, r),
    ensures
        get matches Route::Get(name) && name@ == id,
        delete matches Route::Delete(name) && name@ == id,
        r is Unknown,
{
    let path = "/sessions/"@ + id;
    reveal_strlit("/sessions/");
    reveal_strlit("/sessions");
    reveal_strlit("/health");
    reveal_strlit("GET");
    reveal_strlit("DELETE");
    reveal_strlit("POST");
    assert(path.subrange(0, 10) =~= "/sessions/"@);
    assert(path.skip(10) =~= id);
    assert("GET"@.len() != "DELETE"@.len() && "GET"@.len() != "POST"@.len() && "DELETE"@.len()
        != "POST"@.len());
    assert(path.len() > "/sessions"@.len() && path.len() > "/health"@.len());
}

/// A session is shown under its name as it is: its address, its list, its times, and what
/// it has counted if anything.
pub proof fn law_session_is_shown_as_it_is(v: StoreView, ip: Seq<char>)
    requires
        crate::session::store::sessions_ok(v.sessions),
        v.sessions.dom().contains(ip),
    ensures
        ({
            let s = v.sessions[ip];
            let r = get_reply(v, s.session_id);
            &&& r.status == 200
            &&& r.body matches BodyView::Session(t) && {
                &&& t.session_id == s.session_id
                &&& t.source_ip == ip
                &&& t.allowlist == s.allowlist
                &&& t.created_at == crate::clock::iso8601_or_empty(s.created_at)
                &&& t.expires_at == crate::clock::optional_iso8601(s.expires_at)
                &&& v.stats.dom().contains(s.session_id) ==> t.stats == Some(v.stats[s.session_id])
                &&& !v.stats.dom().contains(s.session_id) ==> t.stats is None
                &&& t.dummy_keys is None
            }
        }),
{
    crate::session::store::lemma_address(v.sessions, ip);
}

/// A session that is registered is shown with what it was registered with.
pub proof fn law_registered_session_is_shown(
    v: StoreView,
    w: StoreView,
    r: ReplyView,
    c: super::register::CreateView,
    now: u64,
    refs: Seq<Seq<char>>,
    outcomes: Seq<Result<crate::vault::KeyPair, crate::vault::SecretStoreError>>,
    db: super::register::Answers,
)
    requires
        crate::session::store::store_ok(v),
        super::register::registered_in(
            v,
            w,
            r,
            super::register::RequestBodyView::Parsed(c),
            now,
            refs,
            outcomes,
            db,
        ),
        r.status == 201,
    ensures
        ({
            let g = get_reply(w, c.session_id);
            &&& g.status == 200
            &&& g.body matches BodyView::Session(t) && {
                &&& t.session_id == c.session_id
                &&& t.source_ip == c.source_ip
                &&& t.allowlist == c.allowlist
                &&& t.created_at == crate::clock::iso8601_or_empty(now)
            }
        }),
        r.body matches BodyView::Session(t) && t.session_id == c.session_id && t.source_ip
            == c.source_ip && t.allowlist == c.allowlist,
{
    let body = super::register::RequestBodyView::Parsed(c);
    super::register::law_session_is_made_once(v, w, r, body, now, refs, outcomes, db);
    let s = super::register::asked_for(body, now)->Ok_0;
    let pairs = super::register::pairs_of(refs, outcomes);
    let m = choose|m: Map<Seq<char>, Seq<char>>| #[trigger]
        super::register::swaps(pairs, m) && w == super::register::with_session(v, s, m);
    crate::session::store::law_made_session_is_found(v.sessions, s);
    law_session_is_shown_as_it_is(w, s.source_ip);
}

/// A session that is not there is not shown, and cannot be deleted.
pub proof fn law_unknown_session_is_not_found(
    v: StoreView,
    id: Seq<char>,
    erased: Result<(), Seq<char>>,
)
    ensures
        get_reply(v, id).status == 200 <==> crate::session::store::id_known(v.sessions, id),
        !crate::session::store::id_known(v.sessions, id) ==> get_reply(v, id).status == 404
            && delete_reply(v, id, erased).status == 404,
        crate::session::store::id_known(v.sessions, id) ==> (delete_reply(v, id, erased).status
            == 204 <==> erased is Ok),
{
}

/// Once a session is deleted it is not found any more.
pub proof fn law_deleted_session_is_not_found(v: StoreView, id: Seq<char>)
    requires
        crate::session::store::sessions_ok(v.sessions),
        crate::session::store::id_known(v.sessions, id),
    ensures
        get_reply(crate::session::store::without_session(v, id), id).status == 404,
{
    crate::session::store::law_deleted_session_is_gone(v, id);
}

/// A list has one line for each session, with the session's own name and address.
pub proof fn law_list_tells_each_session(
    m: Map<Seq<char>, SessionView>,
    order: Seq<Seq<char>>,
    ip: Seq<char>,
)
    requires
        crate::session::store::sessions_ok(m),
        order.no_duplicates(),
        order.to_set() == m.dom(),
        m.dom().contains(ip),
    ensures
        listed(m, order).len() == order.len(),
        exists|i: int|
            0 <= i < order.len() && (#[trigger] listed(m, order)[i]).source_ip == ip && listed(
                m,
                order,
            )[i].session_id == m[ip].session_id && listed(m, order)[i].created_at
                == crate::clock::iso8601_or_empty(m[ip].created_at) && listed(
                m,
                order,
            )[i].expires_at == crate::clock::optional_iso8601(m[ip].expires_at),
{
    assert(order.to_set().contains(ip));
    let i = order.index_of(ip);
    assert(listed(m, order)[i].source_ip == ip);
}

/// What the proxy says of its health has the fingerprint, the number of sessions and the
/// seconds since it was started in it.
pub proof fn law_health_tells_numbers(sha: Seq<char>, count: nat, start: u64, now: u64)
    ensures
        text::contains(
            health_body(sha, count, uptime(start, now)),
            "\",\"active_sessions\":"@ + numbers::decimal(count) + ",\"uptime_secs\":"@,
        ),
        ("{\"status\":\"ok\",\"ca_cert_sha256\":\""@ + sha).is_prefix_of(
            health_body(sha, count, uptime(start, now)),
        ),
        (numbers::decimal(uptime(start, now)) + "}"@).is_suffix_of(
            health_body(sha, count, uptime(start, now)),
        ),
        now >= start ==> start + uptime(start, now) == now,
        now < start ==> uptime(start, now) == 0,
{
    let up = numbers::decimal(uptime(start, now));
    let a = "{\"status\":\"ok\",\"ca_cert_sha256\":\""@ + sha;
    let p = "\",\"active_sessions\":"@ + numbers::decimal(count) + ",\"uptime_secs\":"@;
    let b = up + "}"@;
    let body = health_body(sha, count, uptime(start, now));
    text::law_middle_is_contained(a, p, b);
    assert(body =~= a + p + b);
    assert(body.subrange(0, a.len() as int) =~= a);
    assert(body.subrange(body.len() - b.len(), body.len() as int) =~= b);
}

/// A path names a session only behind the start of all such paths, and all that follows is
/// the name. Only the three methods lead anywhere.
pub proof fn law_name_makes_the_path(method: Seq<char>, path: Seq<char>, r: Route)
    requires
        routes_to(method, path, r),
    ensures
        path_session(path) matches Some(id) ==> path == "/sessions/"@ + id && id.len() > 0,
        r matches Route::Get(id) ==> path == "/sessions/"@ + id@ && method == "GET"@,
        r matches Route::Delete(id) ==> path == "/sessions/"@ + id@ && method == "DELETE"@,
        r is Create ==> method == "POST"@ && path == "/sessions"@,
        r is List ==> method == "GET"@ && path == "/sessions"@,
        r is Health ==> method == "GET"@ && path == "/health"@,
        method == "POST"@ && path == "/sessions"@ ==> r is Create,
{
    let p = "/sessions/"@;
    if let Some(id) = path_session(path) {
        assert(path.subrange(0, p.len() as int) == p);
        assert forall|i: int| 0 <= i < path.len() implies path[i] == (p + id)[i] by {
            if i < p.len() {
                assert(path.subrange(0, p.len() as int)[i] == p[i]);
            }
        }
        assert(path =~= p + id);
    }
}

} // verus!
