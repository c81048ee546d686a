//! What holds of the proxy as a whole.

use vstd::prelude::*;
use vstd::utf8::*;

use super::connect::{Forward, Ruling};
use crate::session::store::StoreView;
use crate::session::SessionView;
use crate::text;
use crate::unicode;
use crate::vault::KeyPairView;

verus! {

/// A machine that was given a dummy key at its registration, and sends it to a host
/// into whose connections keys are put, is let through, and the host gets the real key
/// behind that dummy key: in place of the dummy key, and of any other key that the
/// machine sent. Only where two pairs share the dummy key is it open which real key
/// that is.
pub proof fn law_dummy_key_becomes_real_key(
    v: StoreView,
    s: SessionView,
    pairs: Map<Seq<char>, KeyPairView>,
    m: Map<Seq<char>, Seq<char>>,
    host: Seq<char>,
    i: int,
    ruling: Ruling,
    credential_ref: Seq<char>,
    raw: Seq<u8>,
    f: Forward,
)
    requires
        crate::session::store::store_ok(v),
        !crate::session::store::id_known(v.sessions, s.session_id),
        !v.sessions.dom().contains(s.source_ip),
        super::register::swaps(pairs, m),
        super::connect::first_entry(s.allowlist, host, i),
        s.allowlist[i].mode != "tunnel"@,
        super::connect::judged(
            super::register::with_session(v, s, m),
            Some(s.source_ip),
            host,
            ruling,
        ),
        pairs.dom().contains(credential_ref),
        forall|other: Seq<char>| #[trigger]
            pairs.dom().contains(other) && pairs[other].dummy == pairs[credential_ref].dummy
                ==> pairs[other].real == pairs[credential_ref].real,
        super::rewrite::first_bearer_key(text::split(unicode::decoded(raw), text::crlf()))
            == Some(pairs[credential_ref].dummy),
        !super::rewrite::asks_for_websocket(unicode::decoded(raw)),
        ruling matches Ruling::Mitm(_, keys) ==> super::connect::forwarded(
            raw,
            keys@,
            host,
            f,
        ),
    ensures
        ruling is Mitm,
        f matches Forward::Rewritten(b) && b@ == encode_utf8(
            super::rewrite::rewritten(
                unicode::decoded(raw),
                pairs[credential_ref].real,
                host,
            ),
        ),
{
    let w = super::register::with_session(v, s, m);
    let d = pairs[credential_ref].dummy;
    assert(m.dom().contains(d));
    assert(m != Map::<Seq<char>, Seq<char>>::empty());
    let l = w.sessions[s.source_ip].allowlist;
    assert(l == s.allowlist);
    assert(super::connect::same_host(l[i].domain, host));
    assert(super::connect::allows(l, host));
    match ruling {
        Ruling::Tunnel(_) => {
            let j = choose|j: int| #[trigger]
                super::connect::first_entry(l, host, j) && l[j].mode == "tunnel"@;
            assert(i == j) by {
                if i < j {
                    assert(!super::connect::same_host(l[i].domain, host));
                } else if j < i {
                    assert(!super::connect::same_host(l[j].domain, host));
                }
            }
        },
        Ruling::Mitm(_, keys) => {
            let t = crate::strmap::text_map(keys@);
            assert(t == m);
            assert(t.dom().contains(d));
            assert(keys@.dom().contains(d) && keys@[d]@ == m[d]);
            let r = choose|r: Seq<char>| #[trigger]
                pairs.dom().contains(r) && pairs[r].dummy == d && pairs[r].real == m[d];
            assert(pairs[r].real == pairs[credential_ref].real);
        },
        _ => {},
    }
}

} // verus!
