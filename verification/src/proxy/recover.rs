//! Keys after a restart. Sessions are loaded from the database without their keys, which
//! were never written there: they are looked up again.

use vstd::prelude::*;

use super::register::{gather, keys_of, refs_needed};
use crate::session::store::{SessionStore, StoreView};
use crate::vault::{KeyPair, SecretStore, SecretStoreError};

verus! {

/// The credential references that the session at that address needs.
pub open spec fn refs_at(v: StoreView, ip: Seq<char>) -> Seq<Seq<char>> {
    super::register::needed_refs(v.sessions[ip].allowlist)
}

/// Whether the session at that address has the keys that those lookups of its references
/// gave. A lookup that failed gives none.
pub open spec fn has_keys(
    v: StoreView,
    ip: Seq<char>,
    outcomes: Seq<Result<KeyPair, SecretStoreError>>,
) -> bool {
    super::register::swaps(
        super::register::pairs_of(refs_at(v, ip), outcomes),
        crate::session::store::key_map_of(v, v.sessions[ip].session_id),
    )
}

/// Looks the references up in a secret store, each of them. Each outcome is one that the
/// store's `fetch` gives for its reference.
pub fn fetch_each<S: SecretStore>(secrets: &S, refs: &Vec<String>) -> (outcomes: Vec<
    Result<KeyPair, SecretStoreError>,
>)
    ensures
        outcomes@.len() == refs@.len(),
        forall|i: int|
            0 <= i < outcomes@.len() ==> super::register::fetched(
                secrets,
                refs@[i]@,
                #[trigger] outcomes@[i],
            ),
{
    let mut outcomes: Vec<Result<KeyPair, SecretStoreError>> = Vec::new();
    let mut i: usize = 0;
    while i < refs.len()
        invariant
            i <= refs@.len(),
            outcomes@.len() == i,
            forall|j: int|
                0 <= j < i ==> super::register::fetched(
                    secrets,
                    refs@[j]@,
                    #[trigger] outcomes@[j],
                ),
        decreases refs@.len() - i,
    {
        let s = refs[i].as_str();
        let outcome = secrets.fetch(s);
        assert(super::register::fetched(secrets, refs@[i as int]@, outcome));
        outcomes.push(outcome);
        i = i + 1;
    }
    outcomes
}

/// Gives each session the keys that the lookups of its references gave. The lookups of
/// the session at place `i` of the store's order are at place `i`.
pub fn restore_keys(
    store: &mut SessionStore,
    outcomes: &Vec<Vec<Result<KeyPair, SecretStoreError>>>,
)
    requires
        outcomes@.len() == old(store).order().len(),
        forall|i: int|
            0 <= i < outcomes@.len() ==> (#[trigger] outcomes@[i])@.len() == refs_at(
                old(store)@,
                old(store).order()[i],
            ).len(),
    ensures
        final(store)@.sessions == old(store)@.sessions,
        final(store)@.stats == old(store)@.stats,
        final(store).order() == old(store).order(),
        forall|i: int|
            0 <= i < outcomes@.len() ==> has_keys(
                final(store)@,
                old(store).order()[i],
                (#[trigger] outcomes@[i])@,
            ),
        crate::session::store::store_ok(final(store)@),
{
    let ghost v = store@;
    let ghost order = store.order();
    let n: usize = store.count();
    let sessions = store.list();
    let mut i: usize = 0;
    while i < n
        invariant
            i <= n,
            n == order.len(),
            n == outcomes@.len(),
            order.no_duplicates(),
            order.to_set() == v.sessions.dom(),
            sessions@.len() == n,
            forall|j: int| 0 <= j < n ==> (#[trigger] sessions@[j])@ == v.sessions[order[j]],
            forall|j: int|
                0 <= j < n ==> (#[trigger] outcomes@[j])@.len() == refs_at(v, order[j]).len(),
            store@.sessions == v.sessions,
            store@.stats == v.stats,
            store.order() == order,
            crate::session::store::store_ok(store@),
            forall|j: int| 0 <= j < i ==> has_keys(store@, order[j], (#[trigger] outcomes@[j])@),
        decreases n - i,
    {
        let ghost before = store@;
        let s = &sessions[i];
        let refs = refs_needed(&s.allowlist);
        let ghost ip = order[i as int];
        proof {
            assert(sessions@[i as int]@ == v.sessions[ip]);
            assert(outcomes@[i as int]@.len() == refs_at(v, ip).len());
            assert(order.to_set().contains(ip));
            assert(v.sessions.dom().contains(ip));
            assert(crate::session::store::has_id(store@.sessions, ip, s.session_id@));
        }
        let pairs = gather(&refs, &outcomes[i]);
        let keys = keys_of(&pairs);
        let _ = store.set_key_map(s.session_id.as_str(), keys.dummy_to_real);
        proof {
            assert forall|j: int| 0 <= j < i + 1 implies has_keys(
                store@,
                order[j],
                (#[trigger] outcomes@[j])@,
            ) by {
                if j < i {
                    assert(has_keys(before, order[j], outcomes@[j]@));
                    assert(order.to_set().contains(order[j]));
                    assert(v.sessions.dom().contains(order[j]));
                    assert(v.sessions[order[j]].session_id != v.sessions[ip].session_id);
                }
            }
        }
        i = i + 1;
    }
}

/// Whether the session at that address has keys that `fetch` gave for its references.
pub open spec fn has_fetched_keys<S: SecretStore>(v: StoreView, ip: Seq<char>, secrets: &S) -> bool {
    exists|outcomes: Seq<Result<KeyPair, SecretStoreError>>|
        {
            &&& outcomes.len() == refs_at(v, ip).len()
            &&& forall|i: int|
                0 <= i < outcomes.len() ==> super::register::fetched(
                    secrets,
                    refs_at(v, ip)[i],
                    #[trigger] outcomes[i],
                )
            &&& #[trigger] has_keys(v, ip, outcomes)
        }
}

/// Looks the keys of all sessions up, and gives each session its own.
pub fn recover_keys<S: SecretStore>(store: &mut SessionStore, secrets: &S)
    ensures
        final(store)@.sessions == old(store)@.sessions,
        final(store)@.stats == old(store)@.stats,
        forall|ip: Seq<char>| #[trigger]
            old(store)@.sessions.dom().contains(ip) ==> has_fetched_keys(
                final(store)@,
                ip,
                secrets,
            ),
        crate::session::store::store_ok(final(store)@),
{
    let ghost v = store@;
    let ghost order = store.order();
    let sessions = store.list();
    let mut outcomes: Vec<Vec<Result<KeyPair, SecretStoreError>>> = Vec::new();
    let mut i: usize = 0;
    while i < sessions.len()
        invariant
            i <= sessions@.len(),
            sessions@.len() == order.len(),
            outcomes@.len() == i,
            forall|j: int|
                0 <= j < sessions@.len() ==> (#[trigger] sessions@[j])@ == v.sessions[order[j]],
            forall|j: int|
                0 <= j < i ==> (#[trigger] outcomes@[j])@.len() == refs_at(v, order[j]).len(),
            forall|j: int, k: int|
                0 <= j < i && 0 <= k < outcomes@[j]@.len() ==> super::register::fetched(
                    secrets,
                    refs_at(v, order[j])[k],
                    #[trigger] outcomes@[j]@[k],
                ),
        decreases sessions@.len() - i,
    {
        let refs = refs_needed(&sessions[i].allowlist);
        let found = fetch_each(secrets, &refs);
        proof {
            assert(sessions@[i as int]@ == v.sessions[order[i as int]]);
            assert(crate::text::string_views(refs@) == refs_at(v, order[i as int]));
            assert forall|k: int| 0 <= k < found@.len() implies super::register::fetched(
                secrets,
                refs_at(v, order[i as int])[k],
                #[trigger] found@[k],
            ) by {
                assert(refs_at(v, order[i as int])[k] == refs@[k]@);
            }
        }
        outcomes.push(found);
        i = i + 1;
    }
    restore_keys(store, &outcomes);
    proof {
        let w = store@;
        assert forall|ip: Seq<char>| #[trigger] v.sessions.dom().contains(ip) implies has_fetched_keys(
            w,
            ip,
            secrets,
        ) by {
            assert(order.to_set().contains(ip));
            let j = order.index_of(ip);
            assert(order[j] == ip);
            assert(has_keys(w, order[j], outcomes@[j]@));
            assert(refs_at(w, ip) == refs_at(v, ip));
        }
    }
}

/// A session whose keys were looked up again swaps the same dummy keys for the same real
/// keys as one that is registered anew with these lookups, unless two pairs with different
/// real keys share a dummy key.
pub proof fn law_recovered_keys_are_registered_keys(
    v: StoreView,
    ip: Seq<char>,
    outcomes: Seq<Result<KeyPair, SecretStoreError>>,
    m: Map<Seq<char>, Seq<char>>,
)
    requires
        has_keys(v, ip, outcomes),
        super::register::swaps(super::register::pairs_of(refs_at(v, ip), outcomes), m),
        ({
            let pairs = super::register::pairs_of(refs_at(v, ip), outcomes);
            forall|a: Seq<char>, b: Seq<char>| #[trigger]
                pairs.dom().contains(a) && #[trigger] pairs.dom().contains(b) && pairs[a].dummy
                    == pairs[b].dummy ==> pairs[a].real == pairs[b].real
        }),
    ensures
        crate::session::store::key_map_of(v, v.sessions[ip].session_id) == m,
{
    let pairs = super::register::pairs_of(refs_at(v, ip), outcomes);
    let k = crate::session::store::key_map_of(v, v.sessions[ip].session_id);
    assert forall|d: Seq<char>| #[trigger] k.dom().contains(d) <==> m.dom().contains(d) by {
        if k.dom().contains(d) {
            let r = choose|r: Seq<char>| #[trigger]
                pairs.dom().contains(r) && pairs[r].dummy == d && pairs[r].real == k[d];
            assert(m.dom().contains(pairs[r].dummy));
        }
        if m.dom().contains(d) {
            let r = choose|r: Seq<char>| #[trigger]
                pairs.dom().contains(r) && pairs[r].dummy == d && pairs[r].real == m[d];
            assert(k.dom().contains(pairs[r].dummy));
        }
    }
    assert forall|d: Seq<char>| #[trigger] k.dom().contains(d) implies k[d] == m[d] by {
        let a = choose|r: Seq<char>| #[trigger]
            pairs.dom().contains(r) && pairs[r].dummy == d && pairs[r].real == k[d];
        assert(m.dom().contains(d));
        let b = choose|r: Seq<char>| #[trigger]
            pairs.dom().contains(r) && pairs[r].dummy == d && pairs[r].real == m[d];
        assert(pairs[a].real == pairs[b].real);
    }
    assert(k =~= m);
}

} // verus!
