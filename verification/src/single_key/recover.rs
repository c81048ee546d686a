//! The keys of sessions after a restart: they are looked up again.

use vstd::prelude::*;

use super::register::{fetch_all, find_key};
use super::vault::SecretStore;
use crate::proxy::register::refs_needed;
use crate::session::store::SessionStore;
use crate::session::SessionView;
use crate::vault::SecretStoreError;

verus! {

/// The session with the key that the lookups of its references gave; as it was where they
/// gave none.
pub open spec fn with_key(
    s: SessionView,
    outcomes: Seq<Result<String, SecretStoreError>>,
) -> SessionView {
    match super::register::session_key(
        crate::proxy::register::needed_refs(s.allowlist),
        outcomes,
    ) {
        Some(k) => SessionView { api_key: Some(k), ..s },
        None => s,
    }
}

/// Gives each session the key that the lookups of its references gave. The lookups of the
/// session at place `i` of the store's order are at place `i`.
pub fn restore_keys(store: &mut SessionStore, outcomes: &Vec<Vec<Result<String, SecretStoreError>>>)
    requires
        outcomes@.len() == old(store).order().len(),
        forall|i: int|
            0 <= i < outcomes@.len() ==> (#[trigger] outcomes@[i])@.len()
                <= crate::proxy::register::needed_refs(
                old(store)@.sessions[old(store).order()[i]].allowlist,
            ).len(),
    ensures
        final(store)@.sessions.dom() == old(store)@.sessions.dom(),
        forall|i: int|
            0 <= i < outcomes@.len() ==> final(store)@.sessions[old(store).order()[i]] == with_key(
                old(store)@.sessions[old(store).order()[i]],
                (#[trigger] outcomes@[i])@,
            ),
        final(store)@.stats == old(store)@.stats,
        final(store)@.key_maps == old(store)@.key_maps,
        crate::session::store::store_ok(final(store)@),
{
    let ghost v = store@;
    let ghost order = store.order();
    let n: usize = store.count();
    let sessions = store.list();
    let mut i: usize = 0;
    while i < n
        invariant
            i <= n,
            n == order.len(),
            n == outcomes@.len(),
            order.no_duplicates(),
            order.to_set() == v.sessions.dom(),
            crate::session::store::sessions_ok(v.sessions),
            sessions@.len() == n,
            forall|j: int| 0 <= j < n ==> (#[trigger] sessions@[j])@ == v.sessions[order[j]],
            forall|j: int|
                0 <= j < n ==> (#[trigger] outcomes@[j])@.len()
                    <= crate::proxy::register::needed_refs(v.sessions[order[j]].allowlist).len(),
            store@.sessions.dom() == v.sessions.dom(),
            store@.stats == v.stats,
            store@.key_maps == v.key_maps,
            crate::session::store::store_ok(store@),
            forall|j: int|
                0 <= j < i ==> store@.sessions[order[j]] == with_key(
                    v.sessions[order[j]],
                    (#[trigger] outcomes@[j])@,
                ),
            forall|j: int|
                i <= j < n ==> store@.sessions[#[trigger] order[j]] == v.sessions[order[j]],
        decreases n - i,
    {
        let ghost before = store@;
        let s = &sessions[i];
        let refs = refs_needed(&s.allowlist);
        let ghost ip = order[i as int];
        proof {
            assert(sessions@[i as int]@ == v.sessions[ip]);
            assert(outcomes@[i as int]@.len() <= crate::proxy::register::needed_refs(
                v.sessions[ip].allowlist,
            ).len());
            assert(order.to_set().contains(ip));
            assert(store@.sessions.dom().contains(ip));
            assert(store@.sessions[order[i as int]] == v.sessions[order[i as int]]);
            let id = s.session_id@;
            assert(crate::session::store::has_id(store@.sessions, ip, id));
            let a = crate::session::store::address_of(store@.sessions, id);
            assert(crate::session::store::has_id(store@.sessions, a, id));
            assert(store@.sessions.dom().contains(a));
            assert(a == ip);
        }
        match find_key(&refs, &outcomes[i]) {
            Some(k) => {
                let _ = store.set_api_key(s.session_id.as_str(), k);
            },
            None => {},
        }
        proof {
            assert(store@.sessions.dom() =~= v.sessions.dom());
            assert(store@.sessions[ip] == with_key(v.sessions[ip], outcomes@[i as int]@));
            assert forall|j: int| 0 <= j < n && j != i implies store@.sessions[#[trigger] order[j]]
                == before.sessions[order[j]] by {}
            assert forall|j: int| 0 <= j < i + 1 implies store@.sessions[order[j]] == with_key(
                v.sessions[order[j]],
                (#[trigger] outcomes@[j])@,
            ) by {
                if j < i {
                    assert(before.sessions[order[j]] == with_key(
                        v.sessions[order[j]],
                        outcomes@[j]@,
                    ));
                }
            }
            assert forall|j: int| i + 1 <= j < n implies store@.sessions[#[trigger] order[j]]
                == v.sessions[order[j]] by {
                assert(before.sessions[order[j]] == v.sessions[order[j]]);
            }
        }
        i = i + 1;
    }
}

/// Whether the session `w` is `s` with a key that `fetch` gave for its references.
pub open spec fn has_fetched_key<S: SecretStore>(
    s: SessionView,
    w: SessionView,
    secrets: &S,
) -> bool {
    exists|outcomes: Seq<Result<String, SecretStoreError>>|
        {
            let refs = crate::proxy::register::needed_refs(s.allowlist);
            &&& super::register::looked_up_in_order(refs.len(), outcomes)
            &&& forall|i: int|
                0 <= i < outcomes.len() ==> super::register::fetched(
                    secrets,
                    refs[i],
                    #[trigger] outcomes[i],
                )
            &&& w == #[trigger] with_key(s, outcomes)
        }
}

/// Looks the keys of all sessions up, and gives each session its own.
pub fn recover_keys<S: SecretStore>(store: &mut SessionStore, secrets: &S)
    ensures
        final(store)@.sessions.dom() == old(store)@.sessions.dom(),
        forall|ip: Seq<char>| #[trigger]
            old(store)@.sessions.dom().contains(ip) ==> has_fetched_key(
                old(store)@.sessions[ip],
                final(store)@.sessions[ip],
                secrets,
            ),
        final(store)@.stats == old(store)@.stats,
        final(store)@.key_maps == old(store)@.key_maps,
        crate::session::store::store_ok(final(store)@),
{
    let ghost v = store@;
    let ghost order = store.order();
    let sessions = store.list();
    let mut outcomes: Vec<Vec<Result<String, SecretStoreError>>> = Vec::new();
    let mut i: usize = 0;
    while i < sessions.len()
        invariant
            i <= sessions@.len(),
            sessions@.len() == order.len(),
            outcomes@.len() == i,
            forall|j: int|
                0 <= j < sessions@.len() ==> (#[trigger] sessions@[j])@ == v.sessions[order[j]],
            forall|j: int|
                0 <= j < i ==> super::register::looked_up_in_order(
                    crate::proxy::register::needed_refs(v.sessions[order[j]].allowlist).len(),
                    (#[trigger] outcomes@[j])@,
                ),
            forall|j: int, k: int|
                0 <= j < i && 0 <= k < outcomes@[j]@.len() ==> super::register::fetched(
                    secrets,
                    crate::proxy::register::needed_refs(v.sessions[order[j]].allowlist)[k],
                    #[trigger] outcomes@[j]@[k],
                ),
        decreases sessions@.len() - i,
    {
        let refs = refs_needed(&sessions[i].allowlist);
        let found = fetch_all(secrets, &refs);
        proof {
            let want = crate::proxy::register::needed_refs(v.sessions[order[i as int]].allowlist);
            assert(sessions@[i as int]@ == v.sessions[order[i as int]]);
            assert(crate::text::string_views(refs@) == want);
            assert forall|k: int| 0 <= k < found@.len() implies super::register::fetched(
                secrets,
                want[k],
                #[trigger] found@[k],
            ) by {
                assert(want[k] == refs@[k]@);
            }
        }
        outcomes.push(found);
        i = i + 1;
    }
    restore_keys(store, &outcomes);
    proof {
        let w = store@;
        assert forall|ip: Seq<char>| #[trigger] v.sessions.dom().contains(ip) implies has_fetched_key(
            v.sessions[ip],
            w.sessions[ip],
            secrets,
        ) by {
            assert(order.to_set().contains(ip));
            let j = order.index_of(ip);
            assert(order[j] == ip);
            assert(w.sessions[order[j]] == with_key(v.sessions[order[j]], outcomes@[j]@));
        }
    }
}

/// After a restart a session has the key that was found for it, if one was, and is else as
/// it was.
pub proof fn law_only_the_key_is_restored(
    s: SessionView,
    outcomes: Seq<Result<String, SecretStoreError>>,
)
    ensures
        ({
            let w = with_key(s, outcomes);
            let found = super::register::session_key(
                crate::proxy::register::needed_refs(s.allowlist),
                outcomes,
            );
            &&& w.session_id == s.session_id
            &&& w.source_ip == s.source_ip
            &&& w.allowlist == s.allowlist
            &&& w.created_at == s.created_at
            &&& w.expires_at == s.expires_at
            &&& found is Some ==> w.api_key == found
            &&& found is None ==> w.api_key == s.api_key
        }),
{
}

} // verus!
