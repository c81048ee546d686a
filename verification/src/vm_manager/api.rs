//! The manager's interface: which request asks for what, and the replies to those
//! that launch nothing.

use vstd::prelude::*;

use super::error::{json_error, Body, BodyView, ErrorCode, Reply, ReplyView};
use super::helpers::{extract_session_id, extract_session_id_and_suffix};
use super::state::{EnvView, EnvironmentState, ManagerView, VmManagerState};
use super::types::{
    DeleteResponse, DeletedView, EnvironmentListResponse, EnvironmentStatusResponse,
    EnvironmentSummary, StatusView, SummaryView,
};
use crate::clock;
use crate::text::{self, prefixed};
use crate::unicode;

verus! {

// ---------------------------------------------------------------------------
// Routes
// ---------------------------------------------------------------------------

/// What a request asks for.
#[derive(Debug)]
pub enum Route {
    /// To launch an environment.
    Create,
    /// To list the environments.
    List,
    /// The console of the environment of that name.
    Serial(String),
    /// To take down the environment of that name; whether by force.
    Delete(String, bool),
    /// How the environment of that name is.
    Get(String),
    /// Something else.
    Unknown,
}

/// Whether a query asks for force.
pub open spec fn forced(query: Option<Seq<char>>) -> bool {
    query matches Some(q) && text::split(q, "&"@).contains("force=true"@)
}

/// Whether a query asks for force.
pub fn force_requested(query: Option<&str>) -> (r: bool)
    ensures
        r == forced(
            match query {
                Some(q) => Some(q@),
                None => None,
            },
        ),
{
    let q = match query {
        Some(q) => q,
        None => {
            return false;
        },
    };
    proof {
        reveal_strlit("&");
    }
    let cs = text::chars_of(q);
    let and = text::chars_of("&");
    let want = text::chars_of("force=true");
    let parts = text::split_chars(cs.as_slice(), and.as_slice());
    let ghost all = text::views(parts@);
    let mut i: usize = 0;
    while i < parts.len()
        invariant
            all == text::views(parts@),
            all == text::split(q@, "&"@),
            query == Some(q),
            want@ == "force=true"@,
            i <= parts@.len(),
            forall|j: int| 0 <= j < i ==> #[trigger] all[j] != "force=true"@,
        decreases parts@.len() - i,
    {
        if text::same_chars(parts[i].as_slice(), want.as_slice()) {
            assert(all[i as int] == "force=true"@);
            return true;
        }
        i = i + 1;
    }
    false
}

/// The name in the path of a console.
pub open spec fn serial_name(path: Seq<char>) -> Option<Seq<char>> {
    super::helpers::path_name(path, "/serial"@)
}

/// The name in the path of an environment.
pub open spec fn env_name(path: Seq<char>) -> Option<Seq<char>> {
    super::helpers::path_name(path, Seq::empty())
}

/// Whether `r` is what a request with that method, path and query asks for.
pub open spec fn routes_to(
    method: Seq<char>,
    path: Seq<char>,
    query: Option<Seq<char>>,
    r: Route,
) -> bool {
    let get = method == "GET"@;
    if path == "/v1/environments"@ && method == "POST"@ {
        r is Create
    } else if path == "/v1/environments"@ && get {
        r is List
    } else if serial_name(path) is Some && get {
        r matches Route::Serial(id) && serial_name(path) == Some(id@)
    } else if env_name(path) is Some && method == "DELETE"@ {
        r matches Route::Delete(id, force) && env_name(path) == Some(id@) && force == forced(query)
    } else if env_name(path) is Some && get {
        r matches Route::Get(id) && env_name(path) == Some(id@)
    } else {
        r is Unknown
    }
}

/// What a request with that method, path and query asks for.
pub fn route(method: &str, path: &str, query: Option<&str>) -> (r: Route)
    ensures
        routes_to(
            method@,
            path@,
            match query {
                Some(q) => Some(q@),
                None => None,
            },
            r,
        ),
{
    let is_get = text::same_str(method, "GET");
    proof {
        reveal_strlit("GET");
        reveal_strlit("DELETE");
        assert("GET"@.len() != "DELETE"@.len());
    }
    if text::same_str(path, "/v1/environments") {
        if text::same_str(method, "POST") {
            return Route::Create;
        }
        if is_get {
            return Route::List;
        }
    }
    if is_get {
        match extract_session_id_and_suffix(path, "/serial") {
            Some(id) => {
                return Route::Serial(id);
            },
            None => {},
        }
    }
    match extract_session_id(path) {
        Some(id) => {
            if text::same_str(method, "DELETE") {
                return Route::Delete(id, force_requested(query));
            }
            if is_get {
                return Route::Get(id);
            }
        },
        None => {},
    }
    Route::Unknown
}

/// The reply to a request for something unknown.
pub fn unknown_route() -> (r: Reply)
    ensures
        r@ == super::error::error_reply(404, ErrorCode::InvalidRequest, "unknown route"@, None),
{
    json_error(404, ErrorCode::InvalidRequest, "unknown route")
}

// ---------------------------------------------------------------------------
// Showing and listing
// ---------------------------------------------------------------------------

/// The reply where there is no environment of that name.
pub open spec fn not_found_reply(id: Seq<char>) -> ReplyView {
    super::error::failure(ErrorCode::SessionNotFound, "environment not found: "@ + id, None)
}

fn not_found(id: &str) -> (r: Reply)
    ensures
        r@ == not_found_reply(id@),
{
    json_error(
        404,
        ErrorCode::SessionNotFound,
        prefixed("environment not found: ", id).as_str(),
    )
}

/// The seconds from `start` to `now`; 0 if the clock went back.
pub open spec fn uptime(start: u64, now: u64) -> u64 {
    if now >= start {
        (now - start) as u64
    } else {
        0
    }
}

fn seconds_up(start: u64, now: u64) -> (n: u64)
    ensures
        n == uptime(start, now),
{
    if now >= start {
        now - start
    } else {
        0
    }
}

/// How an environment is, as it is told to a client.
pub open spec fn told(e: EnvView, now: u64) -> StatusView {
    StatusView {
        session_id: e.session_id,
        status: super::state::state_text(e.status),
        vm_ip: e.vm_ip,
        tap_interface: e.tap_interface,
        proxy_session_id: e.session_id,
        started_at: clock::iso8601_or_empty(e.started_at),
        expires_at: clock::optional_iso8601(e.expires_at),
        uptime_secs: uptime(e.started_at, now),
    }
}

/// The reply to the question how an environment is.
pub open spec fn get_reply(v: ManagerView, id: Seq<char>, now: u64) -> ReplyView {
    if v.environments.dom().contains(id) {
        ReplyView { status: 200, body: BodyView::Status(told(v.environments[id], now)) }
    } else {
        not_found_reply(id)
    }
}

/// Tells how an environment is.
pub fn handle_get_environment(state: &VmManagerState, session_id: &str, now: u64) -> (r: Reply)
    ensures
        r@ == get_reply(state@, session_id@, now),
{
    match state.environments.get(session_id) {
        Some(e) => {
            let told = EnvironmentStatusResponse {
                session_id: e.session_id.clone(),
                status: e.status.as_str().to_owned(),
                vm_ip: e.vm_ip.clone(),
                tap_interface: e.tap_interface.clone(),
                proxy_session_id: e.session_id.clone(),
                started_at: clock::format_or_empty(e.started_at),
                expires_at: clock::format_optional(e.expires_at),
                uptime_secs: seconds_up(e.started_at, now),
            };
            Reply { status: 200, body: Body::Status(told) }
        },
        None => not_found(session_id),
    }
}

/// An environment in one line.
pub open spec fn summed_up(e: EnvView, now: u64) -> SummaryView {
    SummaryView {
        session_id: e.session_id,
        status: super::state::state_text(e.status),
        vm_ip: e.vm_ip,
        started_at: clock::iso8601_or_empty(e.started_at),
        uptime_secs: uptime(e.started_at, now),
    }
}

/// The environments of those names, in one line each.
pub open spec fn listed(m: Map<Seq<char>, EnvView>, names: Seq<Seq<char>>, now: u64) -> Seq<
    SummaryView,
> {
    Seq::new(names.len(), |i: int| summed_up(m[names[i]], now))
}

/// Being the name of an environment that is there.
pub open spec fn active_in(m: Map<Seq<char>, EnvView>) -> spec_fn(Seq<char>) -> bool {
    |id: Seq<char>| is_active(m[id])
}

/// The names of the environments that are there, in the order in which they were launched.
pub open spec fn active_names(m: Map<Seq<char>, EnvView>, order: Seq<Seq<char>>) -> Seq<Seq<char>> {
    order.filter(active_in(m))
}

/// Lists the environments that are there, in the order in which they were launched.
pub fn handle_list_environments(state: &VmManagerState, now: u64) -> (r: Reply)
    ensures
        r@ == (ReplyView {
            status: 200,
            body: BodyView::List(
                listed(
                    state@.environments,
                    active_names(state@.environments, state.environments.order()),
                    now,
                ),
            ),
        }),
        state.environments.order().no_duplicates(),
        state.environments.order().to_set() == state@.environments.dom(),
{
    let ghost order = state.environments.order();
    let ghost m = state@.environments;
    let ghost keep = active_in(m);
    let n: usize = state.environments.len();
    let mut lines: Vec<EnvironmentSummary> = Vec::new();
    let mut i: usize = 0;
    proof {
        reveal(Seq::filter);
        assert(super::types::summary_views(lines@) =~= listed(m, order.take(0).filter(keep), now));
    }
    while i < n
        invariant
            i <= n,
            n == order.len(),
            order == state.environments.order(),
            m == state@.environments,
            keep == active_in(m),
            super::types::summary_views(lines@) == listed(
                m,
                order.take(i as int).filter(keep),
                now,
            ),
        decreases n - i,
    {
        let ghost before = lines@;
        let ghost name = order[i as int];
        let e = state.environments.at(i).1;
        proof {
            reveal(Seq::filter);
            assert(order.take(i + 1).drop_last() =~= order.take(i as int));
            assert(order.take(i + 1).last() == name);
            assert(m[name] == e@);
        }
        if e.status == EnvironmentState::Running || e.status == EnvironmentState::ShuttingDown {
            lines.push(
                EnvironmentSummary {
                    session_id: e.session_id.clone(),
                    status: e.status.as_str().to_owned(),
                    vm_ip: e.vm_ip.clone(),
                    started_at: clock::format_or_empty(e.started_at),
                    uptime_secs: seconds_up(e.started_at, now),
                },
            );
            proof {
                assert(super::types::summary_views(lines@) =~= super::types::summary_views(
                    before,
                ).push(summed_up(m[name], now)));
                assert(listed(m, order.take(i as int).filter(keep).push(name), now) =~= listed(
                    m,
                    order.take(i as int).filter(keep),
                    now,
                ).push(summed_up(m[name], now)));
            }
        }
        i = i + 1;
    }
    proof {
        assert(order.take(n as int) =~= order);
        assert(state@.environments.dom() =~= state.environments@.dom());
    }
    Reply { status: 200, body: Body::List(EnvironmentListResponse { environments: lines }) }
}

// ---------------------------------------------------------------------------
// Taking down
// ---------------------------------------------------------------------------

/// The reply to a request to take an environment down.
pub open spec fn delete_reply(v: ManagerView, id: Seq<char>) -> ReplyView {
    if v.environments.dom().contains(id) {
        ReplyView {
            status: 202,
            body: BodyView::Deleted(
                DeletedView { session_id: id, status: "shutting_down"@ },
            ),
        }
    } else {
        not_found_reply(id)
    }
}

/// Whether an environment is there: it runs or is being taken down.
pub open spec fn is_active(e: EnvView) -> bool {
    e.status == EnvironmentState::Running || e.status == EnvironmentState::ShuttingDown
}

/// The manager once the environment of that name is to be taken down. One that is gone
/// stays as it is.
pub open spec fn taken_down(v: ManagerView, id: Seq<char>) -> ManagerView {
    if v.environments.dom().contains(id) && is_active(v.environments[id]) {
        super::state::with_status(v, id, EnvironmentState::ShuttingDown)
    } else {
        v
    }
}

/// Whether the machine of the environment of that name is to be stopped: it is where the
/// environment runs, and was not asked to stop before.
pub open spec fn stop_due(v: ManagerView, id: Seq<char>) -> bool {
    v.environments.dom().contains(id) && v.environments[id].status == EnvironmentState::Running
}

/// Marks an environment as being taken down. Beside the reply stands whether its machine
/// is to be stopped now.
pub fn handle_delete_environment(state: &mut VmManagerState, session_id: &str) -> (r: (Reply, bool))
    ensures
        r.0@ == delete_reply(old(state)@, session_id@),
        r.1 == stop_due(old(state)@, session_id@),
        final(state)@ == taken_down(old(state)@, session_id@),
{
    let status = match state.environments.get(session_id) {
        Some(e) => e.status,
        None => {
            return (not_found(session_id), false);
        },
    };
    let active = status == EnvironmentState::Running || status == EnvironmentState::ShuttingDown;
    if active {
        let _ = state.set_status(session_id, EnvironmentState::ShuttingDown);
    }
    let reply = Reply {
        status: 202,
        body: Body::Deleted(
            DeleteResponse {
                session_id: session_id.to_owned(),
                status: EnvironmentState::ShuttingDown.as_str().to_owned(),
            },
        ),
    };
    (reply, status == EnvironmentState::Running)
}

/// Whether the time of an environment that runs is up.
pub open spec fn is_overdue(e: EnvView, now: u64) -> bool {
    e.status == EnvironmentState::Running && (e.expires_at matches Some(t) && t <= now)
}

/// The names of the environments whose time is up: they are to be taken down.
pub fn overdue(state: &VmManagerState, now: u64) -> (ids: Vec<String>)
    ensures
        crate::text::string_views(ids@).no_duplicates(),
        forall|id: Seq<char>|
            #[trigger] crate::text::string_views(ids@).contains(id) <==> (
            state@.environments.dom().contains(id) && is_overdue(state@.environments[id], now)),
{
    let ghost order = state.environments.order();
    let ghost m = state@.environments;
    let n: usize = state.environments.len();
    let mut ids: Vec<String> = Vec::new();
    let mut i: usize = 0;
    while i < n
        invariant
            i <= n,
            n == order.len(),
            order == state.environments.order(),
            order.no_duplicates(),
            order.to_set() == state.environments@.dom(),
            m == state@.environments,
            crate::text::string_views(ids@).no_duplicates(),
            forall|id: Seq<char>|
                #[trigger] crate::text::string_views(ids@).contains(id) <==> (order.take(
                    i as int,
                ).contains(id) && is_overdue(m[id], now)),
        decreases n - i,
    {
        let e = state.environments.at(i);
        let ghost before = crate::text::string_views(ids@);
        let ghost name = order[i as int];
        let is_up = match e.1.expires_at {
            Some(t) => t <= now,
            None => false,
        };
        proof {
            assert(order.take(i + 1) =~= order.take(i as int).push(name));
            if order.take(i as int).contains(name) {
                let k = order.take(i as int).index_of(name);
                assert(order[k] == order[i as int]);
            }
            assert(m[name] == e.1@);
        }
        if e.1.status == EnvironmentState::Running && is_up {
            ids.push(e.0.clone());
            proof {
                assert(!before.contains(name));
                assert(crate::text::string_views(ids@) =~= before.push(name));
            }
        }
        proof {
            assert forall|id: Seq<char>|
                #[trigger] crate::text::string_views(ids@).contains(id) <==> (order.take(
                    i + 1,
                ).contains(id) && is_overdue(m[id], now)) by {
                crate::text::lemma_push_contains(order.take(i as int), name, id);
                crate::text::lemma_push_contains(before, name, id);
                assert(before.contains(id) <==> (order.take(i as int).contains(id) && is_overdue(
                    m[id],
                    now,
                )));
            }
        }
        i = i + 1;
    }
    proof {
        assert(order.take(n as int) =~= order);
        assert forall|id: Seq<char>| order.contains(id) <==> #[trigger] m.dom().contains(id) by {
            assert(order.to_set().contains(id) <==> order.contains(id));
        }
    }
    ids
}

// ---------------------------------------------------------------------------
// The console
// ---------------------------------------------------------------------------

/// The event that ends the stream of a console.
pub open spec fn done_text() -> Seq<char> {
    "data: [DONE]\n\n"@
}

/// The events for lines of a console: one for each line.
pub open spec fn events_text(lines: Seq<Seq<char>>) -> Seq<char>
    decreases lines.len(),
{
    if lines.len() == 0 {
        Seq::empty()
    } else {
        events_text(lines.drop_last()) + ("data: "@ + lines.last() + "\n\n"@)
    }
}

/// The event that ends the stream of a console.
pub fn done_event() -> (s: String)
    ensures
        s@ == done_text(),
{
    "data: [DONE]\n\n".to_owned()
}

/// The events for what came from a console.
pub fn serial_events(output: &str) -> (s: String)
    ensures
        s@ == events_text(unicode::lines(output@)),
{
    let cs = text::chars_of(output);
    let lines = unicode::lines_of(cs.as_slice());
    let ghost all = text::views(lines@);
    let mut s = String::new();
    let mut i: usize = 0;
    proof {
        assert(s@ =~= events_text(all.take(0)));
    }
    while i < lines.len()
        invariant
            all == text::views(lines@),
            i <= lines@.len(),
            s@ == events_text(all.take(i as int)),
        decreases lines@.len() - i,
    {
        proof {
            assert(all.take(i + 1).drop_last() =~= all.take(i as int));
            assert(all.take(i + 1).last() == lines@[i as int]@);
        }
        let mut event = prefixed("data: ", text::string_of(lines[i].as_slice()).as_str());
        event.append("\n\n");
        s.append(event.as_str());
        i = i + 1;
    }
    proof {
        assert(all.take(i as int) =~= all);
    }
    s
}

/// The reply to a request for a console: where the machine is gone, only the event
/// that ends the stream; else the stream itself, to which the same event is the end.
pub open spec fn serial_reply(v: ManagerView, id: Seq<char>) -> ReplyView {
    if !v.environments.dom().contains(id) {
        not_found_reply(id)
    } else {
        let status = v.environments[id].status;
        ReplyView {
            status: 200,
            body: if status == EnvironmentState::Exited || status == EnvironmentState::Failed {
                BodyView::Events(done_text())
            } else {
                BodyView::Live(id)
            },
        }
    }
}

/// Shows the console of an environment.
pub fn handle_serial(state: &VmManagerState, session_id: &str) -> (r: Reply)
    ensures
        r@ == serial_reply(state@, session_id@),
{
    match state.environments.get(session_id) {
        Some(e) => {
            if e.status == EnvironmentState::Exited || e.status == EnvironmentState::Failed {
                Reply { status: 200, body: Body::Events(done_event()) }
            } else {
                Reply { status: 200, body: Body::Live(session_id.to_owned()) }
            }
        },
        None => not_found(session_id),
    }
}

// ---------------------------------------------------------------------------
// Laws
// ---------------------------------------------------------------------------

/// An environment that is taken down is told as shutting down until it is gone, and its
/// record stays.
pub proof fn law_deleted_environment_is_told(v: ManagerView, id: Seq<char>, now: u64)
    requires
        v.environments.dom().contains(id),
        is_active(v.environments[id]),
    ensures
        ({
            let r = get_reply(taken_down(v, id), id, now);
            r.status == 200 && (r.body matches BodyView::Status(s) && s.status
                == "shutting_down"@)
        }),
{
}

/// An environment that is gone is told as it ended, whatever requests to take it down come
/// after.
pub proof fn law_gone_stays_gone(v: ManagerView, id: Seq<char>, now: u64)
    requires
        v.environments.dom().contains(id),
        !is_active(v.environments[id]),
    ensures
        taken_down(v, id) == v,
        get_reply(taken_down(v, id), id, now) == get_reply(v, id, now),
        !stop_due(v, id),
{
}

/// A machine is stopped once: a second request to take it down asks for no second stop,
/// and changes nothing.
pub proof fn law_machine_is_stopped_once(v: ManagerView, id: Seq<char>)
    ensures
        !stop_due(taken_down(v, id), id),
        taken_down(taken_down(v, id), id) == taken_down(v, id),
{
    let w = taken_down(v, id);
    assert(taken_down(w, id).environments =~= w.environments);
}

/// A list holds each environment that is there, and no other.
pub proof fn law_list_holds_the_active(m: Map<Seq<char>, EnvView>, order: Seq<Seq<char>>)
    requires
        order.to_set() == m.dom(),
    ensures
        forall|id: Seq<char>|
            #[trigger] active_names(m, order).contains(id) <==> m.dom().contains(id) && is_active(
                m[id],
            ),
{
    let keep = active_in(m);
    assert forall|id: Seq<char>|
        #[trigger] active_names(m, order).contains(id) <==> m.dom().contains(id) && is_active(
            m[id],
        ) by {
        if active_names(m, order).contains(id) {
            let i = active_names(m, order).index_of(id);
            order.lemma_filter_pred(keep, i);
            text::lemma_filter_source(order, keep, i);
            assert(keep(id));
            assert(order.to_set().contains(id));
        }
        if m.dom().contains(id) && is_active(m[id]) {
            assert(order.to_set().contains(id));
            let i = order.index_of(id);
            assert(keep(order[i]));
            order.lemma_filter_contains(keep, i);
        }
    }
}

/// A request for the state of an environment with a valid name is routed to it, whatever
/// the name: no name is taken for a part of another path.
pub proof fn law_valid_name_is_routed(id: Seq<char>, query: Option<Seq<char>>, r: Route)
    requires
        super::helpers::valid_id(id),
        routes_to("GET"@, super::helpers::base_path() + id, query, r),
    ensures
        r matches Route::Get(name) && name@ == id,
{
    let p = super::helpers::base_path();
    let path = p + id;
    assert forall|i: int| 0 <= i < id.len() implies id[i] != '/' by {
        assert(super::helpers::is_id_char(id[i]));
    }
    assert(path + Seq::<char>::empty() =~= path);
    super::helpers::law_path_gives_name_back(id, Seq::empty());
    reveal_strlit("/v1/environments/");
    reveal_strlit("/v1/environments");
    reveal_strlit("/serial");
    reveal_strlit("GET");
    reveal_strlit("POST");
    reveal_strlit("DELETE");
    assert("GET"@.len() != "POST"@.len() && "GET"@.len() != "DELETE"@.len());
    assert(path.len() > "/v1/environments"@.len());
    if serial_name(path) is Some {
        let rest = path.skip(p.len() as int);
        assert(rest =~= id);
        let k = id.len() - 7;
        assert(id.subrange(k, id.len() as int)[0] == "/serial"@[0]);
        assert(id[k] == '/');
    }
}

/// What is told of an environment is the environment's own: its name, its status, its
/// address, its interface, when it started and ends, and for how long it has been there.
pub proof fn law_told_environment_is_the_environment(e: EnvView, now: u64)
    ensures
        told(e, now).session_id == e.session_id,
        told(e, now).proxy_session_id == e.session_id,
        told(e, now).status == super::state::state_text(e.status),
        told(e, now).vm_ip == e.vm_ip,
        told(e, now).tap_interface == e.tap_interface,
        told(e, now).started_at == clock::iso8601_or_empty(e.started_at),
        told(e, now).expires_at == clock::optional_iso8601(e.expires_at),
        now >= e.started_at ==> e.started_at + told(e, now).uptime_secs == now,
        now < e.started_at ==> told(e, now).uptime_secs == 0,
        summed_up(e, now).session_id == e.session_id,
        summed_up(e, now).status == told(e, now).status,
        summed_up(e, now).vm_ip == e.vm_ip,
        summed_up(e, now).started_at == told(e, now).started_at,
        summed_up(e, now).uptime_secs == told(e, now).uptime_secs,
{
}

/// An environment is found under its name, with status 200, and nothing is found, with
/// status 404, under any other name. So it is with its console and with taking it down.
pub proof fn law_only_known_environments_are_found(v: ManagerView, id: Seq<char>, now: u64)
    ensures
        v.environments.dom().contains(id) ==> {
            &&& get_reply(v, id, now).status == 200
            &&& get_reply(v, id, now).body == BodyView::Status(told(v.environments[id], now))
            &&& serial_reply(v, id).status == 200
            &&& delete_reply(v, id).status == 202
            &&& delete_reply(v, id).body matches BodyView::Deleted(d) && d.session_id == id
                && d.status == super::state::state_text(EnvironmentState::ShuttingDown)
        },
        !v.environments.dom().contains(id) ==> {
            &&& get_reply(v, id, now).status == 404
            &&& serial_reply(v, id).status == 404
            &&& delete_reply(v, id).status == 404
        },
{
}

/// A list has one line for each environment that it names, that environment's own, in
/// order.
pub proof fn law_list_tells_each_environment(
    m: Map<Seq<char>, EnvView>,
    names: Seq<Seq<char>>,
    now: u64,
    i: int,
)
    requires
        0 <= i < names.len(),
    ensures
        listed(m, names, now).len() == names.len(),
        listed(m, names, now)[i].session_id == m[names[i]].session_id,
        listed(m, names, now)[i].vm_ip == m[names[i]].vm_ip,
        listed(m, names, now)[i].status == super::state::state_text(m[names[i]].status),
{
}

/// An environment is there while it runs and while it is taken down, and only then; it is
/// to be taken down for its time once its last second is reached while it runs.
pub proof fn law_environment_is_there_until_it_ends(e: EnvView, now: u64)
    ensures
        is_active(e) <==> !(e.status == EnvironmentState::Exited || e.status
            == EnvironmentState::Failed),
        is_overdue(e, now) ==> e.status == EnvironmentState::Running && e.expires_at is Some
            && e.expires_at->0 <= now,
        e.status == EnvironmentState::Running && e.expires_at is Some && e.expires_at->0 <= now
            ==> is_overdue(e, now),
{
}

/// Taking an environment down changes its status and nothing else, and no other
/// environment.
pub proof fn law_one_environment_is_taken_down(v: ManagerView, id: Seq<char>, other: Seq<char>)
    requires
        v.environments.dom().contains(other),
    ensures
        ({
            let w = taken_down(v, id);
            &&& w.environments.dom() == v.environments.dom()
            &&& other != id ==> w.environments[other] == v.environments[other]
            &&& w.environments[other].vm_ip == v.environments[other].vm_ip
            &&& w.environments[other].started_at == v.environments[other].started_at
            &&& w.environments[other].expires_at == v.environments[other].expires_at
            &&& w.allocated == v.allocated
        }),
        stop_due(v, id) <==> v.environments.dom().contains(id) && v.environments[id].status
            == EnvironmentState::Running,
{
    super::state::law_only_the_status_changes(v, id, EnvironmentState::ShuttingDown, other);
}

/// A machine is killed at once exactly where one of the parts of the query says so.
pub proof fn law_force_is_asked_for(before: Seq<Seq<char>>, after: Seq<Seq<char>>)
    requires
        before.len() + after.len() > 0,
        forall|i: int|
            0 <= i < before.len() ==> !(#[trigger] before[i]).contains('&') && before[i]
                != "force=true"@,
        forall|i: int|
            0 <= i < after.len() ==> !(#[trigger] after[i]).contains('&') && after[i]
                != "force=true"@,
    ensures
        forced(Some(text::join(before + seq!["force=true"@] + after, "&"@))),
        !forced(Some(text::join(before + after, "&"@))),
        !forced(None),
{
    reveal_strlit("&");
    reveal_strlit("force=true");
    assert("&"@ =~= seq!['&']);
    let said = "force=true"@;
    assert(!said.contains('&'));
    let long = before + seq![said] + after;
    let short = before + after;
    assert forall|i: int| 0 <= i < long.len() implies !(#[trigger] long[i]).contains('&') by {
        if i < before.len() {
            assert(long[i] == before[i]);
        } else if i > before.len() {
            assert(long[i] == after[i - before.len() - 1]);
        }
    }
    assert forall|i: int| 0 <= i < short.len() implies !(#[trigger] short[i]).contains('&')
        && short[i] != said by {
        if i < before.len() {
            assert(short[i] == before[i]);
        } else {
            assert(short[i] == after[i - before.len()]);
        }
    }
    text::lemma_split_join_parts(long, '&');
    text::lemma_split_join_parts(short, '&');
    assert(long[before.len() as int] == said);
}

/// The path of an environment leads to it for being taken down, and the path of its console
/// to its console.
pub proof fn law_environment_path_leads_to_it(
    id: Seq<char>,
    query: Option<Seq<char>>,
    delete: Route,
    serial: Route,
)
    requires
        super::helpers::is_part(id),
        routes_to("DELETE"@, super::helpers::base_path() + id, query, delete),
        routes_to("GET"@, super::helpers::base_path() + id + "/serial"@, query, serial),
    ensures
        delete matches Route::Delete(name, force) && name@ == id && force == forced(query),
        serial matches Route::Serial(name) && name@ == id,
{
    reveal_strlit("GET");
    reveal_strlit("POST");
    reveal_strlit("DELETE");
    assert("GET"@.len() == 3 && "POST"@.len() == 4 && "DELETE"@.len() == 6);
    reveal_strlit("/v1/environments");
    reveal_strlit("/v1/environments/");
    let none = Seq::<char>::empty();
    super::helpers::law_path_gives_name_back(id, none);
    assert(super::helpers::base_path() + id + none =~= super::helpers::base_path() + id);
    super::helpers::law_path_gives_name_back(id, "/serial"@);
}

/// Each line of a console is an event of its own, in order.
pub proof fn law_console_lines_are_events(
    a: Seq<Seq<char>>,
    b: Seq<Seq<char>>,
    line: Seq<char>,
)
    ensures
        events_text(a + b) == events_text(a) + events_text(b),
        events_text(seq![line]) == "data: "@ + line + "\n\n"@,
    decreases b.len(),
{
    let none = Seq::<Seq<char>>::empty();
    assert(seq![line].drop_last() =~= none);
    assert(events_text(none) + ("data: "@ + line + "\n\n"@) =~= "data: "@ + line + "\n\n"@);
    if b.len() == 0 {
        assert(a + b =~= a);
        assert(events_text(a) + events_text(b) =~= events_text(a));
    } else {
        law_console_lines_are_events(a, b.drop_last(), line);
        assert((a + b).drop_last() =~= a + b.drop_last());
        assert((a + b).last() == b.last());
        assert(events_text(a + b) =~= events_text(a) + events_text(b));
    }
}

/// The console of a machine that is there is handed on as it comes, and that of one that is
/// gone is at its end.
pub proof fn law_console_follows_the_machine(v: ManagerView, id: Seq<char>)
    requires
        v.environments.dom().contains(id),
    ensures
        is_active(v.environments[id]) ==> serial_reply(v, id).body == BodyView::Live(id),
        !is_active(v.environments[id]) ==> serial_reply(v, id).body == BodyView::Events(
            "data: [DONE]\n\n"@,
        ),
{
}

/// A request leads to an environment only by a path that is made of its name, and only the
/// three methods lead anywhere.
pub proof fn law_route_comes_from_the_path(
    method: Seq<char>,
    path: Seq<char>,
    query: Option<Seq<char>>,
    r: Route,
)
    requires
        routes_to(method, path, query, r),
    ensures
        r matches Route::Get(id) ==> path == "/v1/environments/"@ + id@ && method == "GET"@,
        r matches Route::Delete(id, _) ==> path == "/v1/environments/"@ + id@ && method
            == "DELETE"@,
        r matches Route::Serial(id) ==> path == "/v1/environments/"@ + id@ + "/serial"@ && method
            == "GET"@,
        r is Create ==> method == "POST"@ && path == "/v1/environments"@,
        r is List ==> method == "GET"@ && path == "/v1/environments"@,
        method == "POST"@ && path == "/v1/environments"@ ==> r is Create,
{
    let none = Seq::<char>::empty();
    super::helpers::law_name_makes_the_path(path, none);
    super::helpers::law_name_makes_the_path(path, "/serial"@);
    if let Some(name) = env_name(path) {
        assert(super::helpers::base_path() + name + none =~= super::helpers::base_path() + name);
    }
}

} // verus!
