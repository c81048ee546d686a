//! Registering a session with one key.

use vstd::prelude::*;

use super::vault::SecretStore;
use crate::proxy::register::{refused, session_asked_for, RequestBody, RequestBodyView};
use crate::proxy::reply::{error_response_with_detail, json_response, Reply, ReplyBody, ReplyView};
use crate::session::store::{SessionStore, StoreView};
use crate::session::{SessionResponse, SessionView};
use crate::vault::SecretStoreError;

verus! {

/// The reply to any request of the session interface where no sessions are kept.
pub fn sessions_disabled() -> (r: Reply)
    ensures
        r@ == crate::proxy::reply::text_reply(
            404,
            "{\"error\":{\"code\":\"INVALID_REQUEST\",\"message\":\"session API not enabled (no session store configured)\"}}"@,
        ),
{
    json_response(
        404,
        "{\"error\":{\"code\":\"INVALID_REQUEST\",\"message\":\"session API not enabled (no session store configured)\"}}",
    )
}

/// Whether the references were looked up in order, up to the first that failed.
pub open spec fn looked_up_in_order(n: nat, outcomes: Seq<Result<String, SecretStoreError>>) -> bool {
    &&& outcomes.len() <= n
    &&& forall|i: int| 0 <= i < outcomes.len() - 1 ==> (#[trigger] outcomes[i]) is Ok
    &&& outcomes.len() < n ==> outcomes.len() > 0 && outcomes.last() is Err
}

/// Whether `outcome` is one that the store's `fetch` gives for the reference.
pub open spec fn fetched<S: SecretStore>(
    secrets: &S,
    credential_ref: Seq<char>,
    outcome: Result<String, SecretStoreError>,
) -> bool {
    exists|s: &str|
        s@ == credential_ref && #[trigger] call_ensures(S::fetch, (secrets, s), outcome)
}

/// Looks the references up in a secret store, in order, up to the first that fails.
/// Each outcome is one that the store's `fetch` gives for its reference.
pub fn fetch_all<S: SecretStore>(secrets: &S, refs: &Vec<String>) -> (outcomes: Vec<
    Result<String, SecretStoreError>,
>)
    ensures
        looked_up_in_order(refs@.len(), outcomes@),
        forall|i: int|
            0 <= i < outcomes@.len() ==> fetched(secrets, refs@[i]@, #[trigger] outcomes@[i]),
{
    let mut outcomes: Vec<Result<String, SecretStoreError>> = Vec::new();
    let mut i: usize = 0;
    while i < refs.len()
        invariant
            i <= refs@.len(),
            outcomes@.len() == i,
            forall|j: int| 0 <= j < i ==> (#[trigger] outcomes@[j]) is Ok,
            forall|j: int|
                0 <= j < i ==> fetched(secrets, refs@[j]@, #[trigger] outcomes@[j]),
        decreases refs@.len() - i,
    {
        let s = refs[i].as_str();
        let outcome = secrets.fetch(s);
        let failed = outcome.is_err();
        assert(fetched(secrets, refs@[i as int]@, outcome));
        outcomes.push(outcome);
        if failed {
            return outcomes;
        }
        i = i + 1;
    }
    outcomes
}

/// The last outcome for that reference.
pub open spec fn key_for(
    credential_ref: Seq<char>,
    refs: Seq<Seq<char>>,
    outcomes: Seq<Result<String, SecretStoreError>>,
) -> Option<Seq<char>>
    decreases outcomes.len(),
{
    if outcomes.len() == 0 {
        None
    } else if refs[outcomes.len() - 1] == credential_ref && outcomes.last() is Ok {
        Some(outcomes.last()->Ok_0@)
    } else {
        key_for(credential_ref, refs, outcomes.drop_last())
    }
}

/// The key of a session: that of the first reference that it needs.
pub open spec fn session_key(
    refs: Seq<Seq<char>>,
    outcomes: Seq<Result<String, SecretStoreError>>,
) -> Option<Seq<char>> {
    if refs.len() == 0 {
        None
    } else {
        key_for(refs[0], refs, outcomes)
    }
}

/// The key of a session: that of the first reference that it needs.
pub fn find_key(refs: &Vec<String>, outcomes: &Vec<Result<String, SecretStoreError>>) -> (r: Option<
    String,
>)
    requires
        outcomes@.len() <= refs@.len(),
    ensures
        crate::text::opt_view(r) == session_key(
            crate::text::string_views(refs@),
            outcomes@,
        ),
{
    let ghost names = crate::text::string_views(refs@);
    if refs.len() == 0 {
        return None;
    }
    let mut i: usize = outcomes.len();
    proof {
        assert(outcomes@.take(i as int) =~= outcomes@);
    }
    while i > 0
        invariant
            names == crate::text::string_views(refs@),
            refs@.len() > 0,
            i <= outcomes@.len() <= refs@.len(),
            session_key(names, outcomes@) == key_for(names[0], names, outcomes@.take(i as int)),
        decreases i,
    {
        proof {
            assert(outcomes@.take(i as int).drop_last() =~= outcomes@.take(i - 1));
            assert(outcomes@.take(i as int).last() == outcomes@[i - 1]);
            assert(names[i - 1] == refs@[i - 1]@ && names[0] == refs@[0]@);
        }
        match &outcomes[i - 1] {
            Ok(key) => {
                if crate::text::same_str(refs[i - 1].as_str(), refs[0].as_str()) {
                    return Some(key.clone());
                }
            },
            Err(_) => {},
        }
        i = i - 1;
    }
    None
}

/// Whether `r`, with the store going from `v` to `w`, is what comes of a request for
/// a new session whose references were looked up with those outcomes.
pub open spec fn registered(
    v: StoreView,
    w: StoreView,
    r: ReplyView,
    body: RequestBodyView,
    now: u64,
    refs: Seq<Seq<char>>,
    outcomes: Seq<Result<String, SecretStoreError>>,
) -> bool {
    match crate::proxy::register::asked_for(body, now) {
        Err(reply) => r == reply && w == v,
        Ok(s) => if outcomes.len() > 0 && outcomes.last() is Err {
            r == crate::proxy::register::unresolved(
                crate::vault::secret_error_text(outcomes.last()->Err_0),
            ) && w == v
        } else if crate::session::store::id_known(v.sessions, s.session_id) {
            r == crate::proxy::reply::error_reply(
                409,
                "SESSION_EXISTS"@,
                "session already exists: "@ + s.session_id,
            ) && w == v
        } else if v.sessions.dom().contains(s.source_ip) {
            r == crate::proxy::reply::error_reply(
                409,
                "SESSION_EXISTS"@,
                "session already exists: "@ + s.source_ip,
            ) && w == v
        } else {
            &&& r == crate::proxy::register::told_new(s, Map::empty())
            &&& w == (StoreView {
                sessions: v.sessions.insert(
                    s.source_ip,
                    SessionView { api_key: session_key(refs, outcomes), ..s },
                ),
                ..v
            })
        },
    }
}

/// What comes of a request for a new session, given what the lookups of its
/// references gave: the reply, and the session in the store if it is made.
pub fn register(
    store: &mut SessionStore,
    body: RequestBody,
    now: u64,
    refs: &Vec<String>,
    outcomes: &Vec<Result<String, SecretStoreError>>,
) -> (r: Reply)
    requires
        looked_up_in_order(refs@.len(), outcomes@),
    ensures
        registered(
            old(store)@,
            final(store)@,
            r@,
            body@,
            now,
            crate::text::string_views(refs@),
            outcomes@,
        ),
        crate::session::store::store_ok(final(store)@),
{
    let _ = store.count();
    let session = match session_asked_for(body, now) {
        Ok(s) => s,
        Err(reply) => {
            return reply;
        },
    };
    if outcomes.len() > 0 {
        match &outcomes[outcomes.len() - 1] {
            Err(e) => {
                return error_response_with_detail(
                    422,
                    "CREDENTIAL_REF_INVALID",
                    "failed to resolve credential reference",
                    e.message().as_str(),
                );
            },
            Ok(_) => {},
        }
    }
    let key = find_key(refs, outcomes);
    let id = session.session_id.clone();
    let told = SessionResponse::from_session(&session);
    let ghost v = store@;
    let ghost s = session@;
    match store.create(session) {
        Err(e) => refused(&e),
        Ok(()) => {
            proof {
                crate::session::store::law_made_session_is_found(v.sessions, s);
            }
            match key {
                Some(k) => {
                    let _ = store.set_api_key(id.as_str(), k);
                    proof {
                        let made = v.sessions.insert(s.source_ip, crate::session::store::keyless(s));
                        let keyed = SessionView { api_key: Some(k@), ..s };
                        assert(made.insert(s.source_ip, keyed) =~= v.sessions.insert(
                            s.source_ip,
                            keyed,
                        ));
                    }
                },
                None => {},
            }
            Reply { status: 201, body: ReplyBody::Session(told) }
        },
    }
}

/// Whether the references of a request were looked up with those outcomes, and `r`,
/// with the store going from `v` to `w`, is what comes of that.
pub open spec fn registered_with<S: SecretStore>(
    v: StoreView,
    w: StoreView,
    r: ReplyView,
    body: RequestBodyView,
    now: u64,
    secrets: Option<&S>,
    outcomes: Seq<Result<String, SecretStoreError>>,
) -> bool {
    let refs = crate::proxy::register::request_refs(body, now, secrets is Some);
    &&& looked_up_in_order(refs.len(), outcomes)
    &&& secrets is Some ==> forall|i: int|
        0 <= i < outcomes.len() ==> fetched(secrets->0, refs[i], #[trigger] outcomes[i])
    &&& registered(v, w, r, body, now, refs, outcomes)
}

/// Registers a session: looks its references up, if there is a secret store, and
/// takes it in with its key.
pub fn handle_create_session<S: SecretStore>(
    store: &mut SessionStore,
    secrets: Option<&S>,
    body: RequestBody,
    now: u64,
) -> (r: Reply)
    ensures
        exists|outcomes: Seq<Result<String, SecretStoreError>>| #[trigger]
            registered_with(
                old(store)@,
                final(store)@,
                r@,
                body@,
                now,
                secrets,
                outcomes,
            ),
        crate::session::store::store_ok(final(store)@),
{
    let refs = crate::proxy::register::refs_of_request(&body, secrets.is_some());
    let mut outcomes: Vec<Result<String, SecretStoreError>> = Vec::new();
    match secrets {
        Some(s) => {
            outcomes = fetch_all(s, &refs);
        },
        None => {},
    }
    proof {
        let want = crate::proxy::register::request_refs(body@, now, secrets is Some);
        assert(crate::text::string_views(refs@) == want);
        assert forall|i: int| secrets is Some && 0 <= i < outcomes@.len() implies fetched(
            secrets->0,
            want[i],
            #[trigger] outcomes@[i],
        ) by {
            assert(want[i] == refs@[i]@);
        }
    }
    let ghost asked = body@;
    let r = register(store, body, now, &refs, &outcomes);
    assert(registered_with(old(store)@, store@, r@, asked, now, secrets, outcomes@));
    r
}

// ---------------------------------------------------------------------------
// Laws
// ---------------------------------------------------------------------------

proof fn lemma_key_for(
    credential_ref: Seq<char>,
    refs: Seq<Seq<char>>,
    outcomes: Seq<Result<String, SecretStoreError>>,
)
    requires
        outcomes.len() <= refs.len(),
    ensures
        match key_for(credential_ref, refs, outcomes) {
            Some(k) => exists|i: int|
                0 <= i < outcomes.len() && refs[i] == credential_ref && (#[trigger] outcomes[i]
                    matches Ok(key) && key@ == k),
            None => forall|i: int|
                0 <= i < outcomes.len() && refs[i] == credential_ref ==> (
                #[trigger] outcomes[i]) is Err,
        },
    decreases outcomes.len(),
{
    if outcomes.len() > 0 {
        let init = outcomes.drop_last();
        let n = outcomes.len() - 1;
        assert(outcomes[n] == outcomes.last());
        if !(refs[n] == credential_ref && outcomes.last() is Ok) {
            lemma_key_for(credential_ref, refs, init);
            match key_for(credential_ref, refs, init) {
                Some(k) => {
                    let i = choose|i: int|
                        0 <= i < init.len() && refs[i] == credential_ref && (#[trigger] init[i]
                            matches Ok(key) && key@ == k);
                    assert(outcomes[i] == init[i]);
                },
                None => {
                    assert forall|i: int|
                        0 <= i < outcomes.len() && refs[i] == credential_ref implies (
                    #[trigger] outcomes[i]) is Err by {
                        if i < n {
                            assert(init[i] == outcomes[i]);
                        }
                    }
                },
            }
        }
    }
}

/// The key of a session is one that was found for its first credential; without a
/// credential, or where none was found for the first, it has none.
pub proof fn law_session_has_the_key_of_its_first_credential(
    refs: Seq<Seq<char>>,
    outcomes: Seq<Result<String, SecretStoreError>>,
)
    requires
        outcomes.len() <= refs.len(),
    ensures
        refs.len() == 0 ==> session_key(refs, outcomes) is None,
        session_key(refs, outcomes) matches Some(k) ==> exists|i: int|
            0 <= i < outcomes.len() && refs[i] == refs[0] && (#[trigger] outcomes[i] matches Ok(key)
                && key@ == k),
        outcomes.len() > 0 && outcomes[0] is Ok ==> session_key(refs, outcomes) is Some,
        outcomes.len() > 0 && outcomes[0] is Ok && (forall|i: int|
            0 < i < refs.len() ==> #[trigger] refs[i] != refs[0]) ==> session_key(refs, outcomes)
            == Some(outcomes[0]->Ok_0@),
{
    if refs.len() > 0 {
        lemma_key_for(refs[0], refs, outcomes);
        if outcomes.len() > 0 && outcomes[0] is Ok && session_key(refs, outcomes) is None {
            assert(outcomes[0] is Err);
        }
    }
}

/// A session is made as it was asked for, with the key that was found for it, and is told
/// without that key. Where it is not made, nothing changes.
pub proof fn law_session_is_made_with_its_key(
    v: StoreView,
    w: StoreView,
    r: ReplyView,
    c: crate::proxy::register::CreateView,
    now: u64,
    refs: Seq<Seq<char>>,
    outcomes: Seq<Result<String, SecretStoreError>>,
)
    requires
        registered(v, w, r, RequestBodyView::Parsed(c), now, refs, outcomes),
    ensures
        r.status != 201 ==> w == v,
        r.status == 201 ==> {
            let s = w.sessions[c.source_ip];
            &&& !crate::session::store::id_known(v.sessions, c.session_id)
            &&& !v.sessions.dom().contains(c.source_ip)
            &&& outcomes.len() > 0 ==> outcomes.last() is Ok
            &&& w.sessions.dom().contains(c.source_ip)
            &&& s.session_id == c.session_id
            &&& s.source_ip == c.source_ip
            &&& s.allowlist == c.allowlist
            &&& s.created_at == now
            &&& s.api_key == session_key(refs, outcomes)
            &&& forall|ip: Seq<char>| #[trigger]
                v.sessions.dom().contains(ip) ==> w.sessions.dom().contains(ip) && w.sessions[ip]
                    == v.sessions[ip]
            &&& w.key_maps == v.key_maps && w.stats == v.stats
            &&& r.body matches crate::proxy::reply::BodyView::Session(t) && t.session_id
                == c.session_id && t.source_ip == c.source_ip && t.allowlist == c.allowlist
                && t.dummy_keys is None
        },
{
}

/// A sound request is met: where its name and its address are free and its credentials were
/// found, the session is made. Else the status says why not.
pub proof fn law_sound_request_is_met(
    v: StoreView,
    w: StoreView,
    r: ReplyView,
    c: crate::proxy::register::CreateView,
    now: u64,
    refs: Seq<Seq<char>>,
    outcomes: Seq<Result<String, SecretStoreError>>,
)
    requires
        registered(v, w, r, RequestBodyView::Parsed(c), now, refs, outcomes),
        c.session_id.len() > 0,
        c.source_ip.len() > 0,
        c.allowlist.len() > 0,
        forall|i: int|
            0 <= i < c.allowlist.len() && (#[trigger] c.allowlist[i]).mode == "mitm"@
                ==> c.allowlist[i].credential_ref is Some,
    ensures
        ({
            let unresolved = outcomes.len() > 0 && outcomes.last() is Err;
            let taken = v.sessions.dom().contains(c.source_ip) || crate::session::store::id_known(
                v.sessions,
                c.session_id,
            );
            &&& unresolved ==> r.status == 422
            &&& !unresolved && taken ==> r.status == 409
            &&& !unresolved && !taken ==> r.status == 201
        }),
{
}

/// All credentials are looked up, in order, unless one is not found.
pub proof fn law_all_credentials_are_looked_up(
    n: nat,
    outcomes: Seq<Result<String, SecretStoreError>>,
)
    requires
        looked_up_in_order(n, outcomes),
    ensures
        outcomes.len() == n && (forall|i: int| 0 <= i < n ==> (#[trigger] outcomes[i]) is Ok) || (0
            < outcomes.len() <= n && outcomes.last() is Err && forall|i: int|
            0 <= i < outcomes.len() - 1 ==> (#[trigger] outcomes[i]) is Ok),
{
    if !(outcomes.len() > 0 && outcomes.last() is Err) {
        assert forall|i: int| 0 <= i < n implies (#[trigger] outcomes[i]) is Ok by {
            if i == n - 1 {
                assert(outcomes[i] == outcomes.last());
            }
        }
    }
}

} // verus!
