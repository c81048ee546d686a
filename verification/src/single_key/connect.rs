//! Whether a machine may reach a host, and under which key.

use vstd::prelude::*;

use crate::proxy::connect::find_entry;
use crate::session::store::{SessionStore, StoreView};
use crate::text;
use crate::unicode;

verus! {

/// Whether a host is on the list, up to case.
pub open spec fn on_list(allowlist: Seq<String>, host: Seq<char>) -> bool {
    exists|i: int|
        0 <= i < allowlist.len() && crate::proxy::connect::same_host(
            (#[trigger] allowlist[i])@,
            host,
        )
}

/// Whether a host is on the list, up to case.
pub fn is_allowlisted(allowlist: &Vec<String>, host: &str) -> (r: bool)
    ensures
        r == on_list(allowlist@, host@),
{
    let want = unicode::lowercase(host);
    let mut i: usize = 0;
    while i < allowlist.len()
        invariant
            want@ == unicode::lowered(host@),
            i <= allowlist@.len(),
            forall|j: int|
                0 <= j < i ==> !crate::proxy::connect::same_host(
                    (#[trigger] allowlist@[j])@,
                    host@,
                ),
        decreases allowlist@.len() - i,
    {
        let have = unicode::lowercase(allowlist[i].as_str());
        if text::same_str(have.as_str(), want.as_str()) {
            return true;
        }
        i = i + 1;
    }
    false
}

/// What is to become of a `CONNECT` request.
#[derive(Debug)]
pub enum Ruling {
    /// It is refused: the machine has no session.
    NoSession,
    /// It is refused: the host is not allowed.
    NotAllowed,
    /// Bytes are handed on as they are.
    Tunnel,
    /// TLS ends here and this key is put in.
    Mitm(String),
}

/// Whether `r` is what becomes of a request for `host` where one list and one key
/// hold for all machines.
pub open spec fn judged_by_list(
    allowlist: Seq<String>,
    api_key: Seq<char>,
    host: Seq<char>,
    r: Ruling,
) -> bool {
    if on_list(allowlist, host) {
        r matches Ruling::Mitm(key) && key@ == api_key
    } else {
        r is NotAllowed
    }
}

/// Whether `r` is what becomes of a request of the machine at `peer` for `host`. The
/// key is that of its session, or the one for all where the session has none.
pub open spec fn judged_by_session(
    v: StoreView,
    peer: Option<Seq<char>>,
    host: Seq<char>,
    api_key: Seq<char>,
    r: Ruling,
) -> bool {
    if peer is None || !v.sessions.dom().contains(peer->0) {
        r is NoSession
    } else {
        let s = v.sessions[peer->0];
        match r {
            Ruling::NoSession => false,
            Ruling::NotAllowed => !crate::proxy::connect::allows(s.allowlist, host),
            Ruling::Tunnel => exists|i: int| #[trigger]
                crate::proxy::connect::first_entry(s.allowlist, host, i) && s.allowlist[i].mode
                    == "tunnel"@,
            Ruling::Mitm(key) => {
                &&& exists|i: int| #[trigger]
                    crate::proxy::connect::first_entry(s.allowlist, host, i)
                        && s.allowlist[i].mode != "tunnel"@
                &&& key@ == (match s.api_key {
                    Some(k) => k,
                    None => api_key,
                })
            },
        }
    }
}

/// What is to become of a `CONNECT` request for `host` where one list and one key
/// hold for all machines.
pub fn judge_by_list(allowlist: &Vec<String>, api_key: &str, host: &str) -> (r: Ruling)
    ensures
        judged_by_list(allowlist@, api_key@, host@, r),
{
    if is_allowlisted(allowlist, host) {
        Ruling::Mitm(api_key.to_owned())
    } else {
        Ruling::NotAllowed
    }
}

/// What is to become of a `CONNECT` request of the machine at `peer` for `host`.
pub fn judge_by_session(store: &SessionStore, peer: Option<&str>, host: &str, api_key: &str) -> (r:
    Ruling)
    ensures
        judged_by_session(
            store@,
            match peer {
                Some(p) => Some(p@),
                None => None,
            },
            host@,
            api_key@,
            r,
        ),
{
    let session = match peer {
        Some(p) => match store.get_by_ip(p) {
            Some(s) => s,
            None => {
                return Ruling::NoSession;
            },
        },
        None => {
            return Ruling::NoSession;
        },
    };
    let ghost all = crate::session::entry_views(session.allowlist@);
    match find_entry(&session.allowlist, host) {
        None => Ruling::NotAllowed,
        Some(i) => {
            assert(crate::proxy::connect::first_entry(all, host@, i as int));
            assert(all[i as int] == session.allowlist@[i as int]@);
            if text::same_str(session.allowlist[i].mode.as_str(), "tunnel") {
                Ruling::Tunnel
            } else {
                match session.api_key {
                    Some(k) => Ruling::Mitm(k),
                    None => Ruling::Mitm(api_key.to_owned()),
                }
            }
        },
    }
}

impl Ruling {
    /// The HTTP status that the request is answered with.
    pub fn status(&self) -> (n: u16)
        ensures
            n == (if self is NoSession || self is NotAllowed {
                403u16
            } else {
                200u16
            }),
    {
        match self {
            Ruling::NoSession => 403,
            Ruling::NotAllowed => 403,
            Ruling::Tunnel => 200,
            Ruling::Mitm(_) => 200,
        }
    }
}

// ---------------------------------------------------------------------------
// Laws
// ---------------------------------------------------------------------------

/// With one list for all, a request goes on, under the key for all, exactly where an entry
/// of the list equals the host, up to case.
pub proof fn law_only_listed_hosts_are_reached(
    allowlist: Seq<String>,
    api_key: Seq<char>,
    host: Seq<char>,
    r: Ruling,
)
    requires
        judged_by_list(allowlist, api_key, host, r),
    ensures
        r is Mitm <==> exists|i: int|
            0 <= i < allowlist.len() && crate::unicode::lowered((#[trigger] allowlist[i])@)
                == crate::unicode::lowered(host),
        r is NotAllowed <==> !(r is Mitm),
        r matches Ruling::Mitm(key) ==> key@ == api_key,
{
    if r is Mitm {
        let i = choose|i: int|
            0 <= i < allowlist.len() && crate::proxy::connect::same_host(
                (#[trigger] allowlist[i])@,
                host,
            );
        assert(crate::unicode::lowered(allowlist[i]@) == crate::unicode::lowered(host));
    } else {
        assert forall|i: int| 0 <= i < allowlist.len() implies crate::unicode::lowered(
            (#[trigger] allowlist[i])@,
        ) != crate::unicode::lowered(host) by {
            assert(!crate::proxy::connect::same_host(allowlist[i]@, host));
        }
    }
}

/// With sessions, a request goes on only where the machine has a session and some entry of
/// its list equals the host, up to case. The key is that of the session, or else the one
/// for all.
pub proof fn law_session_list_decides(
    v: StoreView,
    peer: Option<Seq<char>>,
    host: Seq<char>,
    api_key: Seq<char>,
    r: Ruling,
)
    requires
        judged_by_session(v, peer, host, api_key, r),
    ensures
        r is NoSession <==> (peer matches Some(ip) ==> !v.sessions.dom().contains(ip)),
        !(r is NoSession) ==> {
            let s = v.sessions[peer->0];
            let l = s.allowlist;
            &&& (r is Tunnel || r is Mitm) <==> exists|i: int|
                0 <= i < l.len() && crate::unicode::lowered((#[trigger] l[i]).domain)
                    == crate::unicode::lowered(host)
            &&& r is Tunnel ==> exists|i: int|
                0 <= i < l.len() && crate::unicode::lowered((#[trigger] l[i]).domain)
                    == crate::unicode::lowered(host) && l[i].mode == "tunnel"@
            &&& r is Mitm ==> exists|i: int|
                0 <= i < l.len() && crate::unicode::lowered((#[trigger] l[i]).domain)
                    == crate::unicode::lowered(host) && l[i].mode != "tunnel"@
            &&& r matches Ruling::Mitm(key) ==> (s.api_key matches Some(k) ==> key@ == k) && (
            s.api_key is None ==> key@ == api_key)
        },
{
    if !(r is NoSession) {
        let l = v.sessions[peer->0].allowlist;
        if r is Tunnel || r is Mitm {
            let i = choose|i: int| #[trigger]
                crate::proxy::connect::first_entry(l, host, i) && (r is Tunnel <==> l[i].mode
                    == "tunnel"@);
            assert(crate::unicode::lowered(l[i].domain) == crate::unicode::lowered(host));
        } else {
            assert forall|i: int| 0 <= i < l.len() implies crate::unicode::lowered(
                (#[trigger] l[i]).domain,
            ) != crate::unicode::lowered(host) by {
                assert(!crate::proxy::connect::same_host(l[i].domain, host));
            }
        }
    }
}

/// A request that does not go on is answered with status 403, and one that does with 200.
pub proof fn law_ruling_is_answered(r: Ruling, status: u16)
    requires
        call_ensures(Ruling::status, (&r,), status),
    ensures
        status == 200 <==> r is Tunnel || r is Mitm,
        status == 403 <==> r is NoSession || r is NotAllowed,
{
}

} // verus!
