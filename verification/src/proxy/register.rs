//! Registering a session: checking the request, resolving its credentials, and
//! taking the session in.

use vstd::prelude::*;

use super::reply::{error_response, error_response_with_detail, BodyView, Reply, ReplyBody, ReplyView};
use crate::clock;
use crate::session::store::{SessionRow, SessionStore, StoreView};
use crate::session::{AllowlistEntry, CreateSessionRequest, EntryView, Session, SessionError, SessionResponse, SessionResponseView, SessionView};
use crate::strmap::StrMap;
use crate::text::{self, prefixed};
use crate::vault::{KeyPair, KeyPairView, SecretStore, SecretStoreError};

verus! {

// ---------------------------------------------------------------------------
// The request
// ---------------------------------------------------------------------------

/// The body of a request for a new session.
pub enum RequestBody {
    /// It could not be read.
    Unreadable,
    /// It is not the JSON text of a request: what is wrong with it.
    Malformed(String),
    /// The request.
    Parsed(CreateSessionRequest),
}

/// The texts of a request for a new session.
pub struct CreateView {
    /// The name of the session.
    pub session_id: Seq<char>,
    /// The address that the machine's traffic comes from.
    pub source_ip: Seq<char>,
    /// The hosts that it may reach.
    pub allowlist: Seq<EntryView>,
    /// When it ends.
    pub expires_at: Option<Seq<char>>,
}

/// The view of the body of a request for a new session.
pub enum RequestBodyView {
    /// It could not be read.
    Unreadable,
    /// It is not the JSON text of a request.
    Malformed(Seq<char>),
    /// The request.
    Parsed(CreateView),
}

impl RequestBody {
    /// The id and the address in the request, if it could be read.
    pub fn names(&self) -> (r: Option<(&str, &str)>)
        ensures
            match (r, self@) {
                (Some((id, ip)), RequestBodyView::Parsed(p)) => id@ == p.session_id && ip@
                    == p.source_ip,
                (None, RequestBodyView::Parsed(_)) => false,
                (Some(_), _) => false,
                (None, _) => true,
            },
    {
        match self {
            RequestBody::Parsed(p) => Some((p.session_id.as_str(), p.source_ip.as_str())),
            _ => None,
        }
    }
}

impl View for RequestBody {
    type V = RequestBodyView;

    open spec fn view(&self) -> RequestBodyView {
        match *self {
            RequestBody::Unreadable => RequestBodyView::Unreadable,
            RequestBody::Malformed(e) => RequestBodyView::Malformed(e@),
            RequestBody::Parsed(r) => RequestBodyView::Parsed(
                CreateView {
                    session_id: r.session_id@,
                    source_ip: r.source_ip@,
                    allowlist: crate::session::entry_views(r.allowlist@),
                    expires_at: crate::text::opt_view(r.expires_at),
                },
            ),
        }
    }
}

/// The reply to a request that is not valid.
pub open spec fn invalid(message: Seq<char>) -> ReplyView {
    super::reply::error_reply(400, "INVALID_REQUEST"@, message)
}

/// When a session ends. A text that is no point in time is passed over.
pub open spec fn end_of(expires_at: Option<Seq<char>>) -> Option<u64> {
    match expires_at {
        Some(s) => clock::iso8601_secs(s),
        None => None,
    }
}

/// Whether a key is to be put into the connections of an entry that names none.
pub open spec fn lacks_credential(allowlist: Seq<EntryView>) -> bool {
    exists|i: int|
        0 <= i < allowlist.len() && (#[trigger] allowlist[i]).mode == "mitm"@
            && allowlist[i].credential_ref is None
}

fn has_keyless_entry(allowlist: &Vec<AllowlistEntry>) -> (r: bool)
    ensures
        r == lacks_credential(crate::session::entry_views(allowlist@)),
{
    let ghost all = crate::session::entry_views(allowlist@);
    let mut i: usize = 0;
    while i < allowlist.len()
        invariant
            all == crate::session::entry_views(allowlist@),
            i <= allowlist@.len(),
            forall|j: int|
                0 <= j < i ==> (#[trigger] all[j]).mode != "mitm"@ || all[j].credential_ref is Some,
        decreases allowlist@.len() - i,
    {
        assert(all[i as int] == allowlist@[i as int]@);
        if text::same_str(allowlist[i].mode.as_str(), "mitm")
            && allowlist[i].credential_ref.is_none() {
            return true;
        }
        i = i + 1;
    }
    false
}

/// The session that a request asks for, at the time `now`; or why it is refused.
pub open spec fn asked_for(body: RequestBodyView, now: u64) -> Result<SessionView, ReplyView> {
    match body {
        RequestBodyView::Unreadable => Err(invalid("failed to read request body"@)),
        RequestBodyView::Malformed(e) => Err(invalid("malformed JSON: "@ + e)),
        RequestBodyView::Parsed(r) => if r.session_id.len() == 0 {
            Err(invalid("session_id is required"@))
        } else if r.source_ip.len() == 0 {
            Err(invalid("source_ip is required"@))
        } else if r.allowlist.len() == 0 {
            Err(invalid("allowlist is required"@))
        } else if lacks_credential(r.allowlist) {
            Err(invalid("credential_ref is required for mitm mode"@))
        } else {
            Ok(
                SessionView {
                    session_id: r.session_id,
                    source_ip: r.source_ip,
                    allowlist: r.allowlist,
                    created_at: now,
                    expires_at: end_of(r.expires_at),
                    api_key: None,
                },
            )
        },
    }
}

/// The session that a request asks for, at the time `now`; or why it is refused.
pub fn session_asked_for(body: RequestBody, now: u64) -> (r: Result<Session, Reply>)
    ensures
        match (r, asked_for(body@, now)) {
            (Ok(s), Ok(want)) => s@ == want,
            (Err(reply), Err(want)) => reply@ == want,
            _ => false,
        },
{
    let request = match body {
        RequestBody::Unreadable => {
            return Err(error_response(400, "INVALID_REQUEST", "failed to read request body"));
        },
        RequestBody::Malformed(e) => {
            return Err(
                error_response(
                    400,
                    "INVALID_REQUEST",
                    prefixed("malformed JSON: ", e.as_str()).as_str(),
                ),
            );
        },
        RequestBody::Parsed(r) => r,
    };
    if request.session_id.as_str().is_empty() {
        return Err(error_response(400, "INVALID_REQUEST", "session_id is required"));
    }
    if request.source_ip.as_str().is_empty() {
        return Err(error_response(400, "INVALID_REQUEST", "source_ip is required"));
    }
    if request.allowlist.len() == 0 {
        return Err(error_response(400, "INVALID_REQUEST", "allowlist is required"));
    }
    if has_keyless_entry(&request.allowlist) {
        return Err(
            error_response(400, "INVALID_REQUEST", "credential_ref is required for mitm mode"),
        );
    }
    let expires_at = match &request.expires_at {
        Some(s) => clock::parse_iso8601(s.as_str()),
        None => None,
    };
    Ok(
        Session {
            session_id: request.session_id,
            source_ip: request.source_ip,
            allowlist: request.allowlist,
            created_at: now,
            expires_at,
            api_key: None,
        },
    )
}

// ---------------------------------------------------------------------------
// Credentials
// ---------------------------------------------------------------------------

/// The credential reference of an entry into whose connections a key is put.
pub open spec fn mitm_ref(entry: EntryView) -> Option<Seq<char>> {
    if entry.mode == "mitm"@ {
        entry.credential_ref
    } else {
        None
    }
}

/// The credential references that a session needs, in order.
pub open spec fn needed_refs(allowlist: Seq<EntryView>) -> Seq<Seq<char>>
    decreases allowlist.len(),
{
    if allowlist.len() == 0 {
        Seq::empty()
    } else {
        let before = needed_refs(allowlist.drop_last());
        match mitm_ref(allowlist.last()) {
            Some(r) => before.push(r),
            None => before,
        }
    }
}

/// The credential references that a session needs, in order.
pub fn refs_needed(allowlist: &Vec<AllowlistEntry>) -> (refs: Vec<String>)
    ensures
        crate::text::string_views(refs@) == needed_refs(
            crate::session::entry_views(allowlist@),
        ),
{
    let ghost all = crate::session::entry_views(allowlist@);
    let mut refs: Vec<String> = Vec::new();
    let mut i: usize = 0;
    proof {
        assert(crate::text::string_views(refs@) =~= Seq::empty());
    }
    while i < allowlist.len()
        invariant
            all == crate::session::entry_views(allowlist@),
            i <= allowlist@.len(),
            crate::text::string_views(refs@) == needed_refs(all.take(i as int)),
        decreases allowlist@.len() - i,
    {
        let ghost before = refs@;
        proof {
            assert(all.take(i + 1).drop_last() =~= all.take(i as int));
            assert(all.take(i + 1).last() == allowlist@[i as int]@);
        }
        if text::same_str(allowlist[i].mode.as_str(), "mitm") {
            match &allowlist[i].credential_ref {
                Some(r) => {
                    refs.push(r.clone());
                    proof {
                        assert(crate::text::string_views(refs@)
                            =~= crate::text::string_views(before).push(r@));
                    }
                },
                None => {},
            }
        }
        i = i + 1;
    }
    proof {
        assert(all.take(i as int) =~= all);
    }
    refs
}

/// Whether the references were looked up in order, up to the first that failed.
pub open spec fn looked_up_in_order(
    n: nat,
    outcomes: Seq<Result<KeyPair, SecretStoreError>>,
) -> bool {
    &&& outcomes.len() <= n
    &&& forall|i: int| 0 <= i < outcomes.len() - 1 ==> (#[trigger] outcomes[i]) is Ok
    &&& outcomes.len() < n ==> outcomes.len() > 0 && outcomes.last() is Err
}

/// Whether `outcome` is one that the store's `fetch` gives for the reference.
pub open spec fn fetched<S: SecretStore>(
    secrets: &S,
    credential_ref: Seq<char>,
    outcome: Result<KeyPair, SecretStoreError>,
) -> bool {
    exists|s: &str|
        s@ == credential_ref && #[trigger] call_ensures(S::fetch, (secrets, s), outcome)
}

/// Looks the references up in a secret store, in order, up to the first that fails.
/// Each outcome is one that the store's `fetch` gives for its reference.
pub fn fetch_all<S: SecretStore>(secrets: &S, refs: &Vec<String>) -> (outcomes: Vec<
    Result<KeyPair, SecretStoreError>,
>)
    ensures
        looked_up_in_order(refs@.len(), outcomes@),
        forall|i: int|
            0 <= i < outcomes@.len() ==> fetched(secrets, refs@[i]@, #[trigger] outcomes@[i]),
{
    let mut outcomes: Vec<Result<KeyPair, SecretStoreError>> = Vec::new();
    let mut i: usize = 0;
    while i < refs.len()
        invariant
            i <= refs@.len(),
            outcomes@.len() == i,
            forall|j: int| 0 <= j < i ==> (#[trigger] outcomes@[j]) is Ok,
            forall|j: int|
                0 <= j < i ==> fetched(secrets, refs@[j]@, #[trigger] outcomes@[j]),
        decreases refs@.len() - i,
    {
        let s = refs[i].as_str();
        let outcome = secrets.fetch(s);
        let failed = outcome.is_err();
        assert(fetched(secrets, refs@[i as int]@, outcome));
        outcomes.push(outcome);
        if failed {
            return outcomes;
        }
        i = i + 1;
    }
    outcomes
}

/// The pairs that the references stand for; of two lookups of one reference, the
/// last counts.
pub open spec fn pairs_of(
    refs: Seq<Seq<char>>,
    outcomes: Seq<Result<KeyPair, SecretStoreError>>,
) -> Map<Seq<char>, KeyPairView>
    decreases outcomes.len(),
{
    if outcomes.len() == 0 {
        Map::empty()
    } else {
        let before = pairs_of(refs, outcomes.drop_last());
        match outcomes.last() {
            Ok(pair) => before.insert(refs[outcomes.len() - 1], pair@),
            Err(_) => before,
        }
    }
}

/// The dummy key of each reference.
pub open spec fn dummies(pairs: Map<Seq<char>, KeyPairView>) -> Map<Seq<char>, Seq<char>> {
    Map::new(|k: Seq<char>| pairs.dom().contains(k), |k: Seq<char>| pairs[k].dummy)
}

/// Whether `m` gives, for each dummy key, the real key of a pair that it is the
/// dummy key of. Where two pairs share a dummy key, it is left open which counts.
pub open spec fn swaps(
    pairs: Map<Seq<char>, KeyPairView>,
    m: Map<Seq<char>, Seq<char>>,
) -> bool {
    &&& forall|r: Seq<char>| #[trigger] pairs.dom().contains(r) ==> m.dom().contains(pairs[r].dummy)
    &&& forall|d: Seq<char>| #[trigger]
        m.dom().contains(d) ==> exists|r: Seq<char>| #[trigger]
            pairs.dom().contains(r) && pairs[r].dummy == d && pairs[r].real == m[d]
}

/// The keys of a session.
pub struct Credentials {
    /// The dummy key of each credential reference.
    pub dummy_keys: StrMap<String>,
    /// The real key of each dummy key.
    pub dummy_to_real: StrMap<String>,
}

/// Whether those are the keys that the pairs give.
pub open spec fn credentials_of(c: Credentials, pairs: Map<Seq<char>, KeyPairView>) -> bool {
    &&& crate::strmap::text_map(c.dummy_keys@) == dummies(pairs)
    &&& swaps(pairs, crate::strmap::text_map(c.dummy_to_real@))
}

/// The reply where a reference could not be resolved.
pub open spec fn unresolved(error: Seq<char>) -> ReplyView {
    super::reply::text_reply(
        422,
        super::reply::detailed_error_body(
            "CREDENTIAL_REF_INVALID"@,
            "failed to resolve credential reference"@,
            error,
        ),
    )
}

/// The pairs that the lookups gave.
pub fn gather(refs: &Vec<String>, outcomes: &Vec<Result<KeyPair, SecretStoreError>>) -> (pairs: StrMap<
    KeyPair,
>)
    requires
        outcomes@.len() <= refs@.len(),
    ensures
        crate::vault::pair_map(pairs@) == pairs_of(
            crate::text::string_views(refs@),
            outcomes@,
        ),
{
    let ghost names = crate::text::string_views(refs@);
    let mut pairs: StrMap<KeyPair> = StrMap::new();
    let mut i: usize = 0;
    proof {
        assert(crate::vault::pair_map(pairs@) =~= Map::empty());
    }
    while i < outcomes.len()
        invariant
            names == crate::text::string_views(refs@),
            outcomes@.len() <= refs@.len(),
            i <= outcomes@.len(),
            crate::vault::pair_map(pairs@) == pairs_of(names, outcomes@.take(i as int)),
        decreases outcomes@.len() - i,
    {
        proof {
            assert(outcomes@.take(i + 1).drop_last() =~= outcomes@.take(i as int));
            assert(outcomes@.take(i + 1).last() == outcomes@[i as int]);
        }
        match &outcomes[i] {
            Ok(pair) => {
                let pair = pair.clone();
                proof {
                    assert(crate::vault::pair_map(pairs@.insert(names[i as int], pair))
                        =~= crate::vault::pair_map(pairs@).insert(names[i as int], pair@));
                }
                pairs.insert(refs[i].clone(), pair);
            },
            Err(_) => {},
        }
        i = i + 1;
    }
    proof {
        assert(outcomes@.take(i as int) =~= outcomes@);
    }
    pairs
}

/// The keys that the pairs give.
pub fn keys_of(pairs: &StrMap<KeyPair>) -> (c: Credentials)
    ensures
        credentials_of(c, crate::vault::pair_map(pairs@)),
{
    let ghost all = crate::vault::pair_map(pairs@);
    let ghost order = pairs.order();
    let mut dummy_keys: StrMap<String> = StrMap::new();
    let mut dummy_to_real: StrMap<String> = StrMap::new();
    let n: usize = pairs.len();
    let mut i: usize = 0;
    while i < n
        invariant
            all == crate::vault::pair_map(pairs@),
            order == pairs.order(),
            order.to_set() == pairs@.dom(),
            order.no_duplicates(),
            n == order.len(),
            i <= n,
            forall|r: Seq<char>| #[trigger]
                dummy_keys@.dom().contains(r) <==> order.take(i as int).contains(r),
            forall|r: Seq<char>| #[trigger]
                dummy_keys@.dom().contains(r) ==> dummy_keys@[r]@ == all[r].dummy,
            forall|j: int|
                0 <= j < i ==> dummy_to_real@.dom().contains(all[#[trigger] order[j]].dummy),
            forall|d: Seq<char>| #[trigger]
                dummy_to_real@.dom().contains(d) ==> exists|r: Seq<char>| #[trigger]
                    all.dom().contains(r) && all[r].dummy == d && all[r].real
                        == dummy_to_real@[d]@,
        decreases n - i,
    {
        let e = pairs.at(i);
        proof {
            assert(order.take(i + 1) =~= order.take(i as int).push(order[i as int]));
            assert(all.dom().contains(order[i as int]));
        }
        let ghost keys_before = dummy_keys@;
        let ghost swaps_before = dummy_to_real@;
        dummy_keys.insert(e.0.clone(), e.1.dummy.clone());
        dummy_to_real.insert(e.1.dummy.clone(), e.1.real.clone());
        proof {
            assert forall|r: Seq<char>| #[trigger]
                dummy_keys@.dom().contains(r) <==> order.take(i + 1).contains(r) by {
                crate::text::lemma_push_contains(order.take(i as int), order[i as int], r);
                assert(keys_before.dom().contains(r) <==> order.take(i as int).contains(r));
            }
            assert forall|d: Seq<char>| #[trigger] dummy_to_real@.dom().contains(d) implies exists|
                r: Seq<char>,
            | #[trigger]
                all.dom().contains(r) && all[r].dummy == d && all[r].real == dummy_to_real@[d]@ by {
                if d == e.1.dummy@ {
                    assert(all.dom().contains(order[i as int]));
                } else {
                    assert(swaps_before.dom().contains(d));
                }
            }
        }
        i = i + 1;
    }
    proof {
        assert(order.take(n as int) =~= order);
        assert forall|r: Seq<char>| #[trigger] all.dom().contains(r) implies dummy_keys@.dom().contains(
            r,
        ) && dummy_to_real@.dom().contains(all[r].dummy) by {
            assert(order.to_set().contains(r));
            let j = order.index_of(r);
            assert(order[j] == r);
            assert(order.take(n as int).contains(r));
        }
        assert forall|r: Seq<char>| #[trigger] dummy_keys@.dom().contains(r) implies all.dom().contains(
            r,
        ) by {
            assert(order.contains(r));
            assert(order.to_set().contains(r));
        }
        assert(crate::strmap::text_map(dummy_keys@) =~= dummies(all));
    }
    Credentials { dummy_keys, dummy_to_real }
}

/// The keys that the lookups gave, or the reply where the last of them failed.
pub fn resolve(refs: &Vec<String>, outcomes: &Vec<Result<KeyPair, SecretStoreError>>) -> (r: Result<
    Credentials,
    Reply,
>)
    requires
        looked_up_in_order(refs@.len(), outcomes@),
    ensures
        match r {
            Ok(c) => (outcomes@.len() > 0 ==> outcomes@.last() is Ok) && credentials_of(
                c,
                pairs_of(crate::text::string_views(refs@), outcomes@),
            ),
            Err(reply) => outcomes@.len() > 0 && (outcomes@.last() matches Err(e) && reply@
                == unresolved(crate::vault::secret_error_text(e))),
        },
{
    if outcomes.len() > 0 {
        match &outcomes[outcomes.len() - 1] {
            Err(e) => {
                return Err(
                    error_response_with_detail(
                        422,
                        "CREDENTIAL_REF_INVALID",
                        "failed to resolve credential reference",
                        e.message().as_str(),
                    ),
                );
            },
            Ok(_) => {},
        }
    }
    let pairs = gather(refs, outcomes);
    Ok(keys_of(&pairs))
}

// ---------------------------------------------------------------------------
// Taking the session in
// ---------------------------------------------------------------------------

/// The reply where a session cannot be made.
pub open spec fn refusal(e: SessionError) -> ReplyView {
    match e {
        SessionError::AlreadyExists(what) => super::reply::error_reply(
            409,
            "SESSION_EXISTS"@,
            "session already exists: "@ + what@,
        ),
        _ => super::reply::error_reply(
            500,
            "INTERNAL_ERROR"@,
            crate::session::session_error_text(e),
        ),
    }
}

/// The reply where a session cannot be made.
pub fn refused(e: &SessionError) -> (r: Reply)
    ensures
        r@ == refusal(*e),
{
    match e {
        SessionError::AlreadyExists(what) => error_response(
            409,
            "SESSION_EXISTS",
            prefixed("session already exists: ", what.as_str()).as_str(),
        ),
        _ => error_response(500, "INTERNAL_ERROR", e.message().as_str()),
    }
}

/// A new session as it is told to the client, with its dummy keys if it has any.
pub open spec fn told_new(s: SessionView, dummy_keys: Map<Seq<char>, Seq<char>>) -> ReplyView {
    ReplyView {
        status: 201,
        body: BodyView::Session(
            SessionResponseView {
                dummy_keys: if dummy_keys == Map::<Seq<char>, Seq<char>>::empty() {
                    None
                } else {
                    Some(dummy_keys)
                },
                ..crate::session::told(s)
            },
        ),
    }
}

/// The store with a new session in it, and with its keys if it has any.
pub open spec fn with_session(
    v: StoreView,
    s: SessionView,
    dummy_to_real: Map<Seq<char>, Seq<char>>,
) -> StoreView {
    StoreView {
        sessions: v.sessions.insert(s.source_ip, crate::session::store::keyless(s)),
        key_maps: if dummy_to_real == Map::<Seq<char>, Seq<char>>::empty() {
            v.key_maps
        } else {
            v.key_maps.insert(s.session_id, dummy_to_real)
        },
        stats: v.stats,
    }
}

/// Takes in a session that can be made, once the database has answered.
pub fn enrol(
    store: &mut SessionStore,
    session: Session,
    keys: Credentials,
    written: Result<(), String>,
) -> (r: Reply)
    requires
        !crate::session::store::id_known(old(store)@.sessions, session.session_id@),
        !old(store)@.sessions.dom().contains(session.source_ip@),
    ensures
        match written {
            Ok(_) => r@ == told_new(session@, crate::strmap::text_map(keys.dummy_keys@))
                && final(store)@ == with_session(
                old(store)@,
                session@,
                crate::strmap::text_map(keys.dummy_to_real@),
            ),
            Err(e) => r@ == super::reply::error_reply(500, "INTERNAL_ERROR"@, "sqlite: "@ + e@)
                && final(store)@ == old(store)@,
        },
        crate::session::store::store_ok(final(store)@),
{
    let ghost before = store@.sessions;
    let mut told = SessionResponse::from_session(&session);
    let id = session.session_id.clone();
    let ghost new = session@;
    match store.finish_create(session, written) {
        Err(e) => {
            return refused(&e);
        },
        Ok(()) => {},
    }
    proof {
        let after = store@.sessions;
        assert(crate::session::store::has_id(after, new.source_ip, id@));
    }
    let Credentials { dummy_keys, dummy_to_real } = keys;
    proof {
        let empty = Map::<Seq<char>, Seq<char>>::empty();
        let a = crate::strmap::text_map(dummy_keys@);
        let b = crate::strmap::text_map(dummy_to_real@);
        assert(a =~= empty <==> dummy_keys@ =~= Map::empty());
        assert(b =~= empty <==> dummy_to_real@ =~= Map::empty());
        assert(store@ =~= with_session(old(store)@, new, empty));
    }
    if !dummy_to_real.is_empty() {
        let _ = store.set_key_map(id.as_str(), dummy_to_real);
    }
    if !dummy_keys.is_empty() {
        told.dummy_keys = Some(dummy_keys);
    }
    Reply { status: 201, body: ReplyBody::Session(told) }
}

/// Why a session is not made, if it is not, where the database says whether it has the id
/// and the address.
pub open spec fn refusal_of(
    v: StoreView,
    body: RequestBodyView,
    now: u64,
    outcomes: Seq<Result<KeyPair, SecretStoreError>>,
    id_stored: bool,
    ip_stored: bool,
) -> Option<ReplyView> {
    match asked_for(body, now) {
        Err(reply) => Some(reply),
        Ok(s) => if outcomes.len() > 0 && outcomes.last() is Err {
            Some(unresolved(crate::vault::secret_error_text(outcomes.last()->Err_0)))
        } else if id_stored || crate::session::store::id_known(v.sessions, s.session_id) {
            Some(
                super::reply::error_reply(
                    409,
                    "SESSION_EXISTS"@,
                    "session already exists: "@ + s.session_id,
                ),
            )
        } else if ip_stored || v.sessions.dom().contains(s.source_ip) {
            Some(
                super::reply::error_reply(
                    409,
                    "SESSION_EXISTS"@,
                    "session already exists: "@ + s.source_ip,
                ),
            )
        } else {
            None
        },
    }
}

/// Whether `r`, with the store going from `v` to `w`, is what comes of a session that can
/// be made, where the database answers `written` to its row.
pub open spec fn finished(
    v: StoreView,
    w: StoreView,
    r: ReplyView,
    s: SessionView,
    pairs: Map<Seq<char>, KeyPairView>,
    written: Result<(), Seq<char>>,
) -> bool {
    match written {
        Ok(_) => {
            &&& r == told_new(s, dummies(pairs))
            &&& exists|m: Map<Seq<char>, Seq<char>>| #[trigger]
                swaps(pairs, m) && w == with_session(v, s, m)
        },
        Err(e) => r == super::reply::error_reply(500, "INTERNAL_ERROR"@, "sqlite: "@ + e) && w == v,
    }
}

/// What the database answers when a session is registered.
pub struct Stored {
    /// Whether it has the id.
    pub id_stored: bool,
    /// Whether it has the address.
    pub ip_stored: bool,
    /// Whether the row was written, and why not. It is asked only if nothing else stands
    /// against the session.
    pub written: Result<(), String>,
}

impl View for Stored {
    type V = Answers;

    open spec fn view(&self) -> Answers {
        Answers {
            id_stored: self.id_stored,
            ip_stored: self.ip_stored,
            written: super::api::answer_view(self.written),
        }
    }
}

/// The view of what the database answers.
pub struct Answers {
    /// Whether it has the id.
    pub id_stored: bool,
    /// Whether it has the address.
    pub ip_stored: bool,
    /// Whether the row was written, and why not.
    pub written: Result<(), Seq<char>>,
}

/// Whether `r`, with the store going from `v` to `w`, is what comes of a request for a new
/// session whose references were looked up with those outcomes, where the database gives
/// those answers.
pub open spec fn registered_in(
    v: StoreView,
    w: StoreView,
    r: ReplyView,
    body: RequestBodyView,
    now: u64,
    refs: Seq<Seq<char>>,
    outcomes: Seq<Result<KeyPair, SecretStoreError>>,
    db: Answers,
) -> bool {
    match refusal_of(v, body, now, outcomes, db.id_stored, db.ip_stored) {
        Some(reply) => r == reply && w == v,
        None => finished(
            v,
            w,
            r,
            asked_for(body, now)->Ok_0,
            pairs_of(refs, outcomes),
            db.written,
        ),
    }
}

/// The answers of a database that has nothing and writes everything.
pub open spec fn no_database() -> Answers {
    Answers { id_stored: false, ip_stored: false, written: Ok(()) }
}

/// The same without a database.
pub open spec fn registered(
    v: StoreView,
    w: StoreView,
    r: ReplyView,
    body: RequestBodyView,
    now: u64,
    refs: Seq<Seq<char>>,
    outcomes: Seq<Result<KeyPair, SecretStoreError>>,
) -> bool {
    registered_in(v, w, r, body, now, refs, outcomes, no_database())
}

/// A session that can be made, once its row is written.
pub struct Pending {
    session: Session,
    keys: Credentials,
    row: SessionRow,
}

impl Pending {
    /// The session.
    pub closed spec fn session(self) -> SessionView {
        self.session@
    }

    /// Its keys.
    pub closed spec fn keys(self) -> Credentials {
        self.keys
    }

    /// The row that is to be written for it.
    pub fn row(&self) -> (row: &SessionRow)
        ensures
            row@ == crate::session::store::row_of(self.session()),
    {
        proof {
            use_type_invariant(self);
        }
        &self.row
    }

    #[verifier::type_invariant]
    spec fn inv(self) -> bool {
        self.row@ == crate::session::store::row_of(self.session@)
    }

    /// Takes the session in, once the database has answered whether its row was written.
    pub fn finish(self, store: &mut SessionStore, written: Result<(), String>) -> (r: Reply)
        requires
            !crate::session::store::id_known(old(store)@.sessions, self.session().session_id),
            !old(store)@.sessions.dom().contains(self.session().source_ip),
        ensures
            forall|pairs: Map<Seq<char>, KeyPairView>| #[trigger]
                credentials_of(self.keys(), pairs) ==> finished(
                    old(store)@,
                    final(store)@,
                    r@,
                    self.session(),
                    pairs,
                    super::api::answer_view(written),
                ),
            crate::session::store::store_ok(final(store)@),
    {
        let ghost keys = self.keys;
        let ghost s = self.session@;
        let r = enrol(store, self.session, self.keys, written);
        proof {
            assert forall|pairs: Map<Seq<char>, KeyPairView>| #[trigger]
                credentials_of(keys, pairs) implies finished(
                old(store)@,
                store@,
                r@,
                s,
                pairs,
                super::api::answer_view(written),
            ) by {
                assert(swaps(pairs, crate::strmap::text_map(keys.dummy_to_real@)));
            }
        }
        r
    }
}

/// Goes as far as the database's row in registering a session: checks the request, gives
/// the session the keys that the lookups of its references gave, and sees whether its id
/// and its address are free. `id_stored` and `ip_stored` say whether the database has
/// them.
pub fn prepare(
    store: &SessionStore,
    body: RequestBody,
    now: u64,
    refs: &Vec<String>,
    outcomes: &Vec<Result<KeyPair, SecretStoreError>>,
    id_stored: bool,
    ip_stored: bool,
) -> (r: Result<Pending, Reply>)
    requires
        looked_up_in_order(refs@.len(), outcomes@),
    ensures
        match r {
            Ok(p) => {
                &&& refusal_of(store@, body@, now, outcomes@, id_stored, ip_stored) is None
                &&& asked_for(body@, now) == Ok::<SessionView, ReplyView>(p.session())
                &&& credentials_of(
                    p.keys(),
                    pairs_of(crate::text::string_views(refs@), outcomes@),
                )
            },
            Err(reply) => refusal_of(store@, body@, now, outcomes@, id_stored, ip_stored) == Some(
                reply@,
            ),
        },
{
    let session = match session_asked_for(body, now) {
        Ok(s) => s,
        Err(reply) => {
            return Err(reply);
        },
    };
    let keys = match resolve(refs, outcomes) {
        Ok(keys) => keys,
        Err(reply) => {
            return Err(reply);
        },
    };
    match store.check_new(&session, id_stored, ip_stored) {
        Ok(row) => Ok(Pending { session, keys, row }),
        Err(e) => Err(refused(&e)),
    }
}

/// The references that are looked up for a request: those that its session needs, if
/// there is a secret store.
pub open spec fn request_refs(body: RequestBodyView, now: u64, has_secrets: bool) -> Seq<Seq<char>> {
    match asked_for(body, now) {
        Ok(s) => if has_secrets {
            needed_refs(s.allowlist)
        } else {
            Seq::empty()
        },
        Err(_) => Seq::empty(),
    }
}

/// The references that are to be looked up for a request.
pub fn refs_of_request(body: &RequestBody, has_secrets: bool) -> (refs: Vec<String>)
    ensures
        forall|now: u64|
            crate::text::string_views(refs@) == #[trigger] request_refs(
                body@,
                now,
                has_secrets,
            ),
{
    let mut refs: Vec<String> = Vec::new();
    proof {
        assert(crate::text::string_views(refs@) =~= Seq::empty());
    }
    if has_secrets {
        match body {
            RequestBody::Parsed(request) => {
                if !request.session_id.as_str().is_empty()
                    && !request.source_ip.as_str().is_empty() && request.allowlist.len() > 0
                    && !has_keyless_entry(&request.allowlist) {
                    refs = refs_needed(&request.allowlist);
                }
            },
            _ => {},
        }
    }
    refs
}

/// What comes of a request for a new session, given what the lookups of its references
/// gave and what the database answers: the reply, and the session in the store if it is
/// made. It is `prepare`, and then `Pending::finish` once the row is written.
pub fn register(
    store: &mut SessionStore,
    body: RequestBody,
    now: u64,
    refs: &Vec<String>,
    outcomes: &Vec<Result<KeyPair, SecretStoreError>>,
    db: Stored,
) -> (r: Reply)
    requires
        looked_up_in_order(refs@.len(), outcomes@),
    ensures
        registered_in(
            old(store)@,
            final(store)@,
            r@,
            body@,
            now,
            crate::text::string_views(refs@),
            outcomes@,
            db@,
        ),
        crate::session::store::store_ok(final(store)@),
{
    let _ = store.count();
    match prepare(store, body, now, refs, outcomes, db.id_stored, db.ip_stored) {
        Ok(p) => {
            let r = p.finish(store, db.written);
            assert(credentials_of(
                p.keys(),
                pairs_of(crate::text::string_views(refs@), outcomes@),
            ));
            r
        },
        Err(reply) => reply,
    }
}

/// Looks up the references of a request, if there is a secret store: in order, up to the
/// first that fails.
pub fn look_up<S: SecretStore>(secrets: Option<&S>, body: &RequestBody) -> (r: (
    Vec<String>,
    Vec<Result<KeyPair, SecretStoreError>>,
))
    ensures
        forall|now: u64|
            crate::text::string_views(r.0@) == #[trigger] request_refs(
                body@,
                now,
                secrets is Some,
            ),
        looked_up_in_order(r.0@.len(), r.1@),
        secrets is Some ==> forall|i: int|
            0 <= i < r.1@.len() ==> fetched(secrets->0, r.0@[i]@, #[trigger] r.1@[i]),
{
    let refs = refs_of_request(body, secrets.is_some());
    let mut outcomes: Vec<Result<KeyPair, SecretStoreError>> = Vec::new();
    match secrets {
        Some(s) => {
            outcomes = fetch_all(s, &refs);
        },
        None => {
            assert(request_refs(body@, 0, false).len() == 0);
        },
    }
    (refs, outcomes)
}

/// Whether the references of a request were looked up with those outcomes, and `r`,
/// with the store going from `v` to `w`, is what comes of that.
pub open spec fn registered_with<S: SecretStore>(
    v: StoreView,
    w: StoreView,
    r: ReplyView,
    body: RequestBodyView,
    now: u64,
    secrets: Option<&S>,
    outcomes: Seq<Result<KeyPair, SecretStoreError>>,
) -> bool {
    let refs = request_refs(body, now, secrets is Some);
    &&& looked_up_in_order(refs.len(), outcomes)
    &&& secrets is Some ==> forall|i: int|
        0 <= i < outcomes.len() ==> fetched(secrets->0, refs[i], #[trigger] outcomes[i])
    &&& registered(v, w, r, body, now, refs, outcomes)
}

/// Registers a session: looks its references up, if there is a secret store, and
/// takes it in.
pub fn handle_create_session<S: SecretStore>(
    store: &mut SessionStore,
    secrets: Option<&S>,
    body: RequestBody,
    now: u64,
) -> (r: Reply)
    ensures
        exists|outcomes: Seq<Result<KeyPair, SecretStoreError>>| #[trigger]
            registered_with(
                old(store)@,
                final(store)@,
                r@,
                body@,
                now,
                secrets,
                outcomes,
            ),
        crate::session::store::store_ok(final(store)@),
{
    let (refs, outcomes) = look_up(secrets, &body);
    proof {
        let want = request_refs(body@, now, secrets is Some);
        assert(crate::text::string_views(refs@) == want);
        assert forall|i: int| secrets is Some && 0 <= i < outcomes@.len() implies fetched(
            secrets->0,
            want[i],
            #[trigger] outcomes@[i],
        ) by {
            assert(want[i] == refs@[i]@);
        }
    }
    let ghost asked = body@;
    let db = Stored { id_stored: false, ip_stored: false, written: Ok(()) };
    let r = register(store, body, now, &refs, &outcomes, db);
    assert(registered_with(old(store)@, store@, r@, asked, now, secrets, outcomes@));
    r
}

// ---------------------------------------------------------------------------
// Laws
// ---------------------------------------------------------------------------

/// Whether two lookups gave the same dummy key, or both failed with the same text.
pub open spec fn same_dummy(
    a: Result<KeyPair, SecretStoreError>,
    b: Result<KeyPair, SecretStoreError>,
) -> bool {
    match (a, b) {
        (Ok(p), Ok(q)) => p@.dummy == q@.dummy,
        (Err(d), Err(e)) => crate::vault::secret_error_text(d)
            == crate::vault::secret_error_text(e),
        _ => false,
    }
}

proof fn lemma_same_dummies(
    refs: Seq<Seq<char>>,
    a: Seq<Result<KeyPair, SecretStoreError>>,
    b: Seq<Result<KeyPair, SecretStoreError>>,
)
    requires
        a.len() == b.len(),
        forall|i: int| 0 <= i < a.len() ==> same_dummy(#[trigger] a[i], b[i]),
    ensures
        dummies(pairs_of(refs, a)) == dummies(pairs_of(refs, b)),
    decreases a.len(),
{
    if a.len() > 0 {
        let n = a.len() - 1;
        assert forall|i: int| 0 <= i < n implies same_dummy(
            #[trigger] a.drop_last()[i],
            b.drop_last()[i],
        ) by {
            assert(same_dummy(a[i], b[i]));
        }
        lemma_same_dummies(refs, a.drop_last(), b.drop_last());
        assert(same_dummy(a[n], b[n]));
        let p = pairs_of(refs, a.drop_last());
        let q = pairs_of(refs, b.drop_last());
        assert forall|k: Seq<char>| #[trigger] p.dom().contains(k) <==> q.dom().contains(k) by {
            assert(dummies(p).dom().contains(k) <==> dummies(q).dom().contains(k));
        }
        assert forall|k: Seq<char>| #[trigger] p.dom().contains(k) implies p[k].dummy
            == q[k].dummy by {
            assert(dummies(p)[k] == dummies(q)[k]);
        }
        assert(dummies(pairs_of(refs, a)) =~= dummies(pairs_of(refs, b)));
    } else {
        assert(dummies(pairs_of(refs, a)) =~= dummies(pairs_of(refs, b)));
    }
}

/// No real key is told to who registers a session: the reply is the same whatever the
/// real keys are.
pub proof fn law_real_keys_are_not_told(
    v: StoreView,
    w1: StoreView,
    w2: StoreView,
    r1: ReplyView,
    r2: ReplyView,
    body: RequestBodyView,
    now: u64,
    refs: Seq<Seq<char>>,
    a: Seq<Result<KeyPair, SecretStoreError>>,
    b: Seq<Result<KeyPair, SecretStoreError>>,
)
    requires
        a.len() == b.len(),
        forall|i: int| 0 <= i < a.len() ==> same_dummy(#[trigger] a[i], b[i]),
        registered(v, w1, r1, body, now, refs, a),
        registered(v, w2, r2, body, now, refs, b),
    ensures
        r1 == r2,
{
    lemma_same_dummies(refs, a, b);
    if a.len() > 0 {
        assert(same_dummy(a[a.len() - 1], b[a.len() - 1]));
    }
}

/// A session is made exactly of a request that names a session, an address and at least one
/// host, with a credential for every host into whose connections a key is put. The session
/// is as the request has it, made now, and with no key of its own.
pub proof fn law_session_is_as_asked_for(r: CreateView, now: u64)
    ensures
        asked_for(RequestBodyView::Parsed(r), now) is Ok <==> (r.session_id.len() > 0
            && r.source_ip.len() > 0 && r.allowlist.len() > 0 && forall|i: int|
            0 <= i < r.allowlist.len() && (#[trigger] r.allowlist[i]).mode == "mitm"@
                ==> r.allowlist[i].credential_ref is Some),
        asked_for(RequestBodyView::Parsed(r), now) matches Ok(s) ==> {
            &&& s.session_id == r.session_id
            &&& s.source_ip == r.source_ip
            &&& s.allowlist == r.allowlist
            &&& s.created_at == now
            &&& r.expires_at is None ==> s.expires_at is None
            &&& r.expires_at matches Some(t) ==> s.expires_at == clock::iso8601_secs(t)
            &&& s.api_key is None
        },
        asked_for(RequestBodyView::Parsed(r), now) matches Err(reply) ==> reply.status == 400,
        asked_for(RequestBodyView::Unreadable, now) is Err,
        forall|e: Seq<char>| #[trigger] asked_for(RequestBodyView::Malformed(e), now) is Err,
{
}

/// The credentials that are looked up are those of the hosts into whose connections a key
/// is put, and no others.
pub proof fn law_needed_credentials_are_looked_up(allowlist: Seq<EntryView>, r: Seq<char>)
    ensures
        needed_refs(allowlist).contains(r) <==> exists|i: int|
            0 <= i < allowlist.len() && (#[trigger] allowlist[i]).mode == "mitm"@
                && allowlist[i].credential_ref == Some(r),
    decreases allowlist.len(),
{
    if allowlist.len() > 0 {
        let init = allowlist.drop_last();
        let last = allowlist.last();
        law_needed_credentials_are_looked_up(init, r);
        if let Some(x) = last.credential_ref {
            crate::text::lemma_push_contains(needed_refs(init), x, r);
        }
        if exists|i: int|
            0 <= i < init.len() && (#[trigger] init[i]).mode == "mitm"@ && init[i].credential_ref
                == Some(r) {
            let i = choose|i: int|
                0 <= i < init.len() && (#[trigger] init[i]).mode == "mitm"@
                    && init[i].credential_ref == Some(r);
            assert(allowlist[i] == init[i]);
        }
        if exists|i: int|
            0 <= i < allowlist.len() && (#[trigger] allowlist[i]).mode == "mitm"@
                && allowlist[i].credential_ref == Some(r) {
            let i = choose|i: int|
                0 <= i < allowlist.len() && (#[trigger] allowlist[i]).mode == "mitm"@
                    && allowlist[i].credential_ref == Some(r);
            if i < init.len() {
                assert(init[i] == allowlist[i]);
            }
        }
        assert(allowlist[allowlist.len() - 1] == last);
    }
}

/// The credentials of two lists, one behind the other, are those of the first and then
/// those of the second.
pub proof fn law_credentials_come_in_order(a: Seq<EntryView>, b: Seq<EntryView>)
    ensures
        needed_refs(a + b) == needed_refs(a) + needed_refs(b),
    decreases b.len(),
{
    if b.len() == 0 {
        assert(a + b =~= a);
        assert(needed_refs(a) + needed_refs(b) =~= needed_refs(a));
    } else {
        law_credentials_come_in_order(a, b.drop_last());
        assert((a + b).drop_last() =~= a + b.drop_last());
        assert((a + b).last() == b.last());
        assert(needed_refs(a + b) =~= needed_refs(a) + needed_refs(b));
    }
}

/// The keys of a credential are those that were found when it was looked up last.
pub proof fn law_keys_are_those_found(
    refs: Seq<Seq<char>>,
    outcomes: Seq<Result<KeyPair, SecretStoreError>>,
    r: Seq<char>,
)
    requires
        outcomes.len() <= refs.len(),
    ensures
        pairs_of(refs, outcomes).dom().contains(r) <==> exists|i: int|
            0 <= i < outcomes.len() && refs[i] == r && (#[trigger] outcomes[i]) is Ok,
        pairs_of(refs, outcomes).dom().contains(r) ==> exists|i: int|
            0 <= i < outcomes.len() && refs[i] == r && (#[trigger] outcomes[i] matches Ok(pair)
                && pairs_of(refs, outcomes)[r].dummy == pair.dummy@ && pairs_of(
                refs,
                outcomes,
            )[r].real == pair.real@) && forall|j: int|
                i < j < outcomes.len() ==> refs[j] != r || (#[trigger] outcomes[j]) is Err,
    decreases outcomes.len(),
{
    if outcomes.len() > 0 {
        let init = outcomes.drop_last();
        let last = outcomes.last();
        let n = outcomes.len() - 1;
        law_keys_are_those_found(refs, init, r);
        assert(outcomes[n] == last);
        if refs[n] == r && last is Ok {
            assert(pairs_of(refs, outcomes)[r] == last->Ok_0@);
        } else {
            assert(pairs_of(refs, outcomes).dom().contains(r) <==> pairs_of(
                refs,
                init,
            ).dom().contains(r));
            if pairs_of(refs, init).dom().contains(r) {
                let i = choose|i: int|
                    0 <= i < init.len() && refs[i] == r && (#[trigger] init[i] matches Ok(pair)
                        && pairs_of(refs, init)[r].dummy == pair.dummy@ && pairs_of(
                        refs,
                        init,
                    )[r].real == pair.real@) && forall|j: int|
                        i < j < init.len() ==> refs[j] != r || (#[trigger] init[j]) is Err;
                assert(outcomes[i] == init[i]);
                assert forall|j: int| i < j < outcomes.len() implies refs[j] != r || (
                #[trigger] outcomes[j]) is Err by {
                    if j < n {
                        assert(init[j] == outcomes[j]);
                    }
                }
            } else {
                assert forall|i: int| 0 <= i < outcomes.len() implies !(refs[i] == r && (
                #[trigger] outcomes[i]) is Ok) by {
                    if i < n {
                        assert(init[i] == outcomes[i]);
                    }
                }
            }
        }
    }
}

/// The client is told the dummy key of each credential, and the proxy swaps each dummy key
/// for the real key that was found with it.
pub proof fn law_dummy_keys_are_told_and_swapped(
    pairs: Map<Seq<char>, KeyPairView>,
    m: Map<Seq<char>, Seq<char>>,
    r: Seq<char>,
)
    requires
        swaps(pairs, m),
        pairs.dom().contains(r),
    ensures
        dummies(pairs).dom() == pairs.dom(),
        dummies(pairs)[r] == pairs[r].dummy,
        m.dom().contains(pairs[r].dummy),
        exists|q: Seq<char>| #[trigger]
            pairs.dom().contains(q) && pairs[q].dummy == pairs[r].dummy && m[pairs[r].dummy]
                == pairs[q].real,
        (forall|q: Seq<char>| #[trigger]
            pairs.dom().contains(q) && pairs[q].dummy == pairs[r].dummy ==> q == r)
            ==> m[pairs[r].dummy] == pairs[r].real,
{
    assert(dummies(pairs).dom() =~= pairs.dom());
}

/// A new session is at its address as it was asked for, without a key of its own; its dummy
/// keys are swapped for its real keys; and the sessions that were there, their keys and
/// their counts are as they were.
pub proof fn law_new_session_is_there(
    v: StoreView,
    s: SessionView,
    m: Map<Seq<char>, Seq<char>>,
    ip: Seq<char>,
    id: Seq<char>,
)
    requires
        crate::session::store::store_ok(v),
        !crate::session::store::id_known(v.sessions, s.session_id),
        !v.sessions.dom().contains(s.source_ip),
    ensures
        ({
            let w = with_session(v, s, m);
            &&& w.sessions.dom().contains(s.source_ip)
            &&& w.sessions[s.source_ip].session_id == s.session_id
            &&& w.sessions[s.source_ip].source_ip == s.source_ip
            &&& w.sessions[s.source_ip].allowlist == s.allowlist
            &&& w.sessions[s.source_ip].created_at == s.created_at
            &&& w.sessions[s.source_ip].expires_at == s.expires_at
            &&& w.sessions[s.source_ip].api_key is None
            &&& crate::session::store::key_map_of(w, s.session_id) == m
            &&& v.sessions.dom().contains(ip) ==> w.sessions.dom().contains(ip) && w.sessions[ip]
                == v.sessions[ip]
            &&& id != s.session_id ==> crate::session::store::key_map_of(w, id)
                == crate::session::store::key_map_of(v, id)
            &&& crate::session::store::stats_of(w, id) == crate::session::store::stats_of(v, id)
        }),
{
}

/// The reply to a new session tells the session as it was asked for, with its dummy keys
/// where there are any.
pub proof fn law_new_session_is_told(s: SessionView, dummy_keys: Map<Seq<char>, Seq<char>>)
    ensures
        told_new(s, dummy_keys).status == 201,
        told_new(s, dummy_keys).body matches BodyView::Session(t) && {
            &&& t.session_id == s.session_id
            &&& t.source_ip == s.source_ip
            &&& t.allowlist == s.allowlist
            &&& t.created_at == clock::iso8601_or_empty(s.created_at)
            &&& t.expires_at == clock::optional_iso8601(s.expires_at)
            &&& t.dummy_keys matches Some(m) ==> m == dummy_keys
            &&& t.dummy_keys is None <==> dummy_keys == Map::<Seq<char>, Seq<char>>::empty()
        },
{
}

/// A request that is refused changes nothing. A new session is only made where neither its
/// name nor its address is taken, every credential was found, and the database took it.
pub proof fn law_session_is_made_once(
    v: StoreView,
    w: StoreView,
    r: ReplyView,
    body: RequestBodyView,
    now: u64,
    refs: Seq<Seq<char>>,
    outcomes: Seq<Result<KeyPair, SecretStoreError>>,
    db: Answers,
)
    requires
        registered_in(v, w, r, body, now, refs, outcomes, db),
    ensures
        r.status != 201 ==> w == v,
        r.status == 201 ==> {
            &&& body is Parsed
            &&& !crate::session::store::id_known(v.sessions, body->Parsed_0.session_id)
            &&& !v.sessions.dom().contains(body->Parsed_0.source_ip)
            &&& !db.id_stored && !db.ip_stored && db.written is Ok
            &&& outcomes.len() > 0 ==> outcomes.last() is Ok
        },
{
}

/// What a client asks for is seen with all that it holds.
pub proof fn law_request_is_seen_whole(r: CreateSessionRequest, body: RequestBody)
    requires
        body == RequestBody::Parsed(r),
    ensures
        body@ matches RequestBodyView::Parsed(c) && {
            &&& c.session_id == r.session_id@
            &&& c.source_ip == r.source_ip@
            &&& c.allowlist.len() == r.allowlist@.len()
            &&& forall|i: int|
                0 <= i < r.allowlist@.len() ==> c.allowlist[i] == (#[trigger] r.allowlist@[i])@
            &&& r.expires_at is Some <==> c.expires_at is Some
            &&& r.expires_at matches Some(t) ==> c.expires_at == Some(t@)
        },
{
}

/// A sound request is met: where its name and its address are free, every credential was
/// found and the database took it, the session is made. Else the status says why not.
pub proof fn law_sound_request_is_met(
    v: StoreView,
    w: StoreView,
    r: ReplyView,
    c: CreateView,
    now: u64,
    refs: Seq<Seq<char>>,
    outcomes: Seq<Result<KeyPair, SecretStoreError>>,
    db: Answers,
)
    requires
        registered_in(v, w, r, RequestBodyView::Parsed(c), now, refs, outcomes, db),
        c.session_id.len() > 0,
        c.source_ip.len() > 0,
        c.allowlist.len() > 0,
        forall|i: int|
            0 <= i < c.allowlist.len() && (#[trigger] c.allowlist[i]).mode == "mitm"@
                ==> c.allowlist[i].credential_ref is Some,
    ensures
        ({
            let unresolved = outcomes.len() > 0 && outcomes.last() is Err;
            let taken = db.id_stored || db.ip_stored || v.sessions.dom().contains(c.source_ip)
                || crate::session::store::id_known(v.sessions, c.session_id);
            &&& unresolved ==> r.status == 422
            &&& !unresolved && taken ==> r.status == 409
            &&& !unresolved && !taken && db.written is Err ==> r.status == 500
            &&& !unresolved && !taken && db.written is Ok ==> r.status == 201
        }),
{
}

/// The credentials of a sound request are looked up where there is somewhere to look, all of
/// them unless one is not found; those of any other request are not.
pub proof fn law_credentials_of_a_request(
    body: RequestBodyView,
    now: u64,
    n: nat,
    outcomes: Seq<Result<KeyPair, SecretStoreError>>,
)
    ensures
        asked_for(body, now) is Ok ==> request_refs(body, now, true) == needed_refs(
            body->Parsed_0.allowlist,
        ),
        request_refs(body, now, false).len() == 0,
        asked_for(body, now) is Err ==> request_refs(body, now, true).len() == 0,
        looked_up_in_order(n, outcomes) ==> {
            ||| outcomes.len() == n && forall|i: int|
                0 <= i < n ==> (#[trigger] outcomes[i]) is Ok
            ||| 0 < outcomes.len() <= n && outcomes.last() is Err && forall|i: int|
                0 <= i < outcomes.len() - 1 ==> (#[trigger] outcomes[i]) is Ok
        },
{
    if looked_up_in_order(n, outcomes) && !(outcomes.len() > 0 && outcomes.last() is Err) {
        assert forall|i: int| 0 <= i < n implies (#[trigger] outcomes[i]) is Ok by {
            if i == n - 1 {
                assert(outcomes[i] == outcomes.last());
            }
        }
    }
}

} // verus!
