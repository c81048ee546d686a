//! Launching an environment, step by step.
//!
//! A request goes through these steps, in this order: it is checked; an address is
//! reserved; the session is registered with the proxy; the interface is made; the
//! rules are loaded; the machine is launched. What comes out of each step is a type
//! of its own that only that step can make, so that no step can be left out or come
//! too early: a machine is launched only when its session is registered and its
//! traffic is led to the proxy. Where a step fails, the steps before it are undone.

use vstd::prelude::*;

use super::error::{json_error, json_error_with_detail, Body, BodyView, ErrorCode, Reply, ReplyView};
use super::helpers::is_valid_session_id;
use super::proxy_client::{ProxySessionRequest, RawHttpResponse};
use super::state::{
    pool_address, EnvView, Environment, EnvironmentState, ManagerView, VmManagerState,
};
use super::types::{
    proxy_allowlist, CreateEnvironmentRequest, CreatedView, EgressAllowlistEntry, EgressView,
    EnvironmentResponse, FileEntry, FileView, ProxyAllowlistEntry, ProxySessionInfo, RequestView,
};
use crate::clock;
use crate::numbers;
use crate::session::EntryView;
use crate::strmap::StrMap;
use crate::text::{self, copy_opt, prefixed};

verus! {

// ---------------------------------------------------------------------------
// Checking the request
// ---------------------------------------------------------------------------

/// The body of a request for a new environment.
pub enum RequestBody {
    /// It could not be read.
    Unreadable,
    /// It is not the JSON text of a request: what is wrong with it.
    Malformed(String),
    /// The request.
    Parsed(CreateEnvironmentRequest),
}

/// The view of the body of a request for a new environment.
pub enum RequestBodyView {
    /// It could not be read.
    Unreadable,
    /// It is not the JSON text of a request.
    Malformed(Seq<char>),
    /// The request.
    Parsed(RequestView),
}

impl View for RequestBody {
    type V = RequestBodyView;

    open spec fn view(&self) -> RequestBodyView {
        match *self {
            RequestBody::Unreadable => RequestBodyView::Unreadable,
            RequestBody::Malformed(e) => RequestBodyView::Malformed(e@),
            RequestBody::Parsed(r) => RequestBodyView::Parsed(r@),
        }
    }
}

/// Whether a key is to be put into the connections to a host for which none is named.
pub open spec fn lacks_credential(l: Seq<EgressView>) -> bool {
    exists|i: int|
        0 <= i < l.len() && (#[trigger] l[i]).inject_key && l[i].credential_ref is None
}

fn has_keyless_entry(l: &Vec<EgressAllowlistEntry>) -> (r: bool)
    ensures
        r == lacks_credential(super::types::egress_views(l@)),
{
    let ghost all = super::types::egress_views(l@);
    let mut i: usize = 0;
    while i < l.len()
        invariant
            all == super::types::egress_views(l@),
            i <= l@.len(),
            forall|j: int|
                0 <= j < i ==> !(#[trigger] all[j]).inject_key || all[j].credential_ref is Some,
        decreases l@.len() - i,
    {
        assert(all[i as int] == l@[i as int]@);
        if l[i].inject_key && l[i].credential_ref.is_none() {
            return true;
        }
        i = i + 1;
    }
    false
}

/// Why a request is refused at once, if it is.
pub open spec fn refusal(v: ManagerView, body: RequestBodyView) -> Option<ReplyView> {
    match body {
        RequestBodyView::Unreadable => Some(
            super::error::failure(
                ErrorCode::InvalidRequest,
                "failed to read request body"@,
                None,
            ),
        ),
        RequestBodyView::Malformed(e) => Some(
            super::error::failure(ErrorCode::InvalidRequest, "malformed JSON: "@ + e, None),
        ),
        RequestBodyView::Parsed(r) => if !super::helpers::valid_id(r.session_id) {
            Some(
                super::error::failure(
                    ErrorCode::InvalidRequest,
                    "session_id must match ^[a-z0-9_]{8,64}$"@,
                    None,
                ),
            )
        } else if lacks_credential(r.allowlist) {
            Some(
                super::error::failure(
                    ErrorCode::InvalidRequest,
                    "credential_ref is required when inject_key is true"@,
                    None,
                ),
            )
        } else if v.environments.dom().contains(r.session_id) {
            Some(
                super::error::failure(
                    ErrorCode::SessionExists,
                    "session already exists: "@ + r.session_id,
                    None,
                ),
            )
        } else {
            None
        },
    }
}

/// A request that can be met as far as the manager knows.
pub struct Checked {
    request: CreateEnvironmentRequest,
}

impl View for Checked {
    type V = RequestView;

    closed spec fn view(&self) -> RequestView {
        self.request@
    }
}

impl Checked {
    /// The image that is asked for.
    pub fn image(&self) -> (s: &str)
        ensures
            s@ == self@.image,
    {
        self.request.image.as_str()
    }

    /// How long the machine is to run, in seconds.
    pub fn timeout_secs(&self) -> (n: u32)
        ensures
            n == self@.timeout_secs,
    {
        self.request.timeout_secs
    }
}

/// Checks a request.
pub fn check_request(state: &VmManagerState, body: RequestBody) -> (r: Result<Checked, Reply>)
    ensures
        match r {
            Ok(c) => refusal(state@, body@) is None && body@ == RequestBodyView::Parsed(c@),
            Err(reply) => refusal(state@, body@) == Some(reply@),
        },
{
    let request = match body {
        RequestBody::Unreadable => {
            return Err(
                json_error(400, ErrorCode::InvalidRequest, "failed to read request body"),
            );
        },
        RequestBody::Malformed(e) => {
            return Err(
                json_error(
                    400,
                    ErrorCode::InvalidRequest,
                    prefixed("malformed JSON: ", e.as_str()).as_str(),
                ),
            );
        },
        RequestBody::Parsed(r) => r,
    };
    if !is_valid_session_id(request.session_id.as_str()) {
        return Err(
            json_error(400, ErrorCode::InvalidRequest, "session_id must match ^[a-z0-9_]{8,64}$"),
        );
    }
    if has_keyless_entry(&request.egress.allowlist) {
        return Err(
            json_error(
                400,
                ErrorCode::InvalidRequest,
                "credential_ref is required when inject_key is true",
            ),
        );
    }
    if state.knows(request.session_id.as_str()) {
        return Err(
            json_error(
                409,
                ErrorCode::SessionExists,
                prefixed("session already exists: ", request.session_id.as_str()).as_str(),
            ),
        );
    }
    Ok(Checked { request })
}

// ---------------------------------------------------------------------------
// Addresses
// ---------------------------------------------------------------------------

/// The numbers in a dotted address, without the parts that are no number up to 255.
pub open spec fn octets(parts: Seq<Seq<char>>) -> Seq<nat>
    decreases parts.len(),
{
    if parts.len() == 0 {
        Seq::empty()
    } else {
        let before = octets(parts.drop_last());
        match numbers::parsed(parts.last(), 255) {
            Some(n) => before.push(n),
            None => before,
        }
    }
}

/// Four numbers as a dotted address.
pub open spec fn dotted(a: nat, b: nat, c: nat, d: nat) -> Seq<char> {
    numbers::decimal(a) + "."@ + numbers::decimal(b) + "."@ + numbers::decimal(c) + "."@
        + numbers::decimal(d)
}

/// The address before `ip`, on which the host is reached from the machine at `ip`.
pub open spec fn gateway_text(ip: Seq<char>) -> Option<Seq<char>> {
    let o = octets(text::split(ip, "."@));
    if o.len() == 4 && o[3] > 0 {
        Some(dotted(o[0], o[1], o[2], (o[3] - 1) as nat))
    } else {
        None
    }
}

/// The host's address on the side of the machine with that number.
pub open spec fn pool_gateway(i: int) -> Seq<char> {
    dotted(10, 0, 1, (1 + 4 * i) as nat)
}

/// The address before `ip`.
pub fn gateway(ip: &str) -> (r: Option<String>)
    ensures
        crate::text::opt_view(r) == gateway_text(ip@),
{
    let cs = text::chars_of(ip);
    let dot = text::chars_of(".");
    proof {
        reveal_strlit(".");
    }
    let parts = text::split_chars(cs.as_slice(), dot.as_slice());
    let ghost all = text::views(parts@);
    let mut o: Vec<u64> = Vec::new();
    let mut i: usize = 0;
    proof {
        assert(Seq::new(o@.len(), |k: int| o@[k] as nat) =~= octets(all.take(0)));
    }
    while i < parts.len()
        invariant
            all == text::views(parts@),
            i <= parts@.len(),
            Seq::new(o@.len(), |k: int| o@[k] as nat) == octets(all.take(i as int)),
            forall|k: int| 0 <= k < o@.len() ==> #[trigger] o@[k] <= 255,
        decreases parts@.len() - i,
    {
        let ghost before = o@;
        proof {
            assert(all.take(i + 1).drop_last() =~= all.take(i as int));
            assert(all.take(i + 1).last() == parts@[i as int]@);
        }
        match numbers::parse_number(parts[i].as_slice(), 255) {
            Some(n) => {
                o.push(n);
                proof {
                    assert(Seq::new(o@.len(), |k: int| o@[k] as nat) =~= Seq::new(
                        before.len(),
                        |k: int| before[k] as nat,
                    ).push(n as nat));
                }
            },
            None => {},
        }
        i = i + 1;
    }
    proof {
        assert(all.take(i as int) =~= all);
        let m = octets(all);
        assert(m.len() == o@.len());
        if o@.len() == 4 {
            assert(m[0] == o@[0] && m[1] == o@[1] && m[2] == o@[2] && m[3] == o@[3]);
        }
    }
    if o.len() != 4 || o[3] == 0 {
        return None;
    }
    let mut s = numbers::number_string(o[0]);
    s.append(".");
    s.append(numbers::number_string(o[1]).as_str());
    s.append(".");
    s.append(numbers::number_string(o[2]).as_str());
    s.append(".");
    s.append(numbers::number_string(o[3] - 1).as_str());
    Some(s)
}

proof fn lemma_digits_without_dot(n: nat)
    ensures
        !numbers::decimal(n).contains('.'),
        n <= 255 ==> numbers::parsed(numbers::decimal(n), 255) == Some(n),
{
    let d = numbers::decimal(n);
    numbers::lemma_decimal_reads_back(n);
    if d.contains('.') {
        let k = d.index_of('.');
        assert(numbers::is_digit(d[k]));
    }
    assert(numbers::is_digit(d[0]));
    assert(numbers::unsigned_part(d) == d);
}

/// The machine with that number reaches the host on the address before its own, which
/// is never the address of a machine.
pub proof fn law_gateway_is_before_machine(i: int)
    requires
        0 <= i < super::state::pool_size(),
    ensures
        gateway_text(super::state::pool_ip(i)) == Some(pool_gateway(i)),
        forall|j: int| 0 <= j ==> pool_gateway(i) != #[trigger] super::state::pool_ip(j),
{
    let n = (2 + 4 * i) as nat;
    let ip = super::state::pool_ip(i);
    reveal_strlit(".");
    reveal_strlit("10.0.1.");
    let dot = seq!['.'];
    assert("."@ =~= dot);
    assert(numbers::decimal(1) =~= seq!['1']);
    assert(numbers::decimal(0) =~= seq!['0']);
    assert(numbers::decimal(10) =~= seq!['1', '0']) by {
        assert(10nat / 10 == 1 && 10nat % 10 == 0);
        assert(numbers::decimal(10) == numbers::decimal(1).push(numbers::digit(0)));
    }
    let parts = seq![
        numbers::decimal(10),
        numbers::decimal(0),
        numbers::decimal(1),
        numbers::decimal(n),
    ];
    lemma_digits_without_dot(10);
    lemma_digits_without_dot(0);
    lemma_digits_without_dot(1);
    lemma_digits_without_dot(n);
    lemma_join_four(parts[0], parts[1], parts[2], parts[3], dot);
    assert(text::join(parts, dot) =~= ip);
    text::lemma_split_join_parts(parts, '.');
    lemma_octets_four(parts, 10, 0, 1, n);
    assert forall|j: int| 0 <= j implies pool_gateway(i) != #[trigger] super::state::pool_ip(
        j,
    ) by {
        let a = numbers::decimal((1 + 4 * i) as nat);
        let b = numbers::decimal((2 + 4 * j) as nat);
        assert(pool_gateway(i).skip(7) =~= a);
        assert(super::state::pool_ip(j).skip(7) =~= b);
        numbers::lemma_decimal_reads_back((1 + 4 * i) as nat);
        numbers::lemma_decimal_reads_back((2 + 4 * j) as nat);
    }
}

proof fn lemma_join_four(
    a: Seq<char>,
    b: Seq<char>,
    c: Seq<char>,
    d: Seq<char>,
    sep: Seq<char>,
)
    ensures
        text::join(seq![a, b, c, d], sep) == a + sep + b + sep + c + sep + d,
{
    let four = seq![a, b, c, d];
    let three = seq![a, b, c];
    let two = seq![a, b];
    let one = seq![a];
    assert(four.drop_last() =~= three);
    assert(three.drop_last() =~= two);
    assert(two.drop_last() =~= one);
    assert(text::join(one, sep) == a);
    assert(text::join(two, sep) == a + sep + b);
    assert(text::join(three, sep) == a + sep + b + sep + c);
}

proof fn lemma_octets_four(parts: Seq<Seq<char>>, a: nat, b: nat, c: nat, d: nat)
    requires
        parts.len() == 4,
        numbers::parsed(parts[0], 255) == Some(a),
        numbers::parsed(parts[1], 255) == Some(b),
        numbers::parsed(parts[2], 255) == Some(c),
        numbers::parsed(parts[3], 255) == Some(d),
    ensures
        octets(parts) == seq![a, b, c, d],
{
    let p3 = parts.drop_last();
    let p2 = p3.drop_last();
    let p1 = p2.drop_last();
    let p0 = p1.drop_last();
    assert(octets(p0) =~= Seq::<nat>::empty());
    assert(octets(p1) =~= seq![a]);
    assert(octets(p2) =~= seq![a, b]);
    assert(octets(p3) =~= seq![a, b, c]);
    assert(octets(parts) =~= seq![a, b, c, d]);
}

// ---------------------------------------------------------------------------
// Reserving
// ---------------------------------------------------------------------------

/// What was found under the name of an image.
pub enum ImageLookup {
    /// Nothing.
    Missing,
    /// Something whose place could not be determined: why not.
    Unresolved(String),
    /// The image at that place.
    Found(String),
}

/// All that is settled of an environment before anything is done outside.
pub struct Order {
    /// Its name.
    pub session_id: String,
    /// The address of its machine.
    pub vm_ip: String,
    /// The host's address on the side of the machine.
    pub host_tap_ip: String,
    /// The interface that its machine is connected to.
    pub tap_interface: String,
    /// When it starts, in Unix seconds.
    pub started_at: u64,
    /// When it ends, in Unix seconds.
    pub expires_at: Option<u64>,
    /// The hosts that it may reach.
    pub allowlist: Vec<ProxyAllowlistEntry>,
    /// The place of its image.
    pub rootfs: String,
    /// The number of its processors.
    pub vcpus: u32,
    /// Its memory, in MiB.
    pub memory_mib: u32,
    /// What is put into it.
    pub files: Vec<FileEntry>,
}

/// The texts and numbers of an order.
pub struct OrderView {
    /// Its name.
    pub session_id: Seq<char>,
    /// The address of its machine.
    pub vm_ip: Seq<char>,
    /// The host's address on the side of the machine.
    pub host_tap_ip: Seq<char>,
    /// The interface that its machine is connected to.
    pub tap_interface: Seq<char>,
    /// When it starts.
    pub started_at: u64,
    /// When it ends.
    pub expires_at: Option<u64>,
    /// The hosts that it may reach.
    pub allowlist: Seq<EntryView>,
    /// The place of its image.
    pub rootfs: Seq<char>,
    /// The number of its processors.
    pub vcpus: u32,
    /// Its memory.
    pub memory_mib: u32,
    /// What is put into it.
    pub files: Seq<FileView>,
}

impl View for Order {
    type V = OrderView;

    open spec fn view(&self) -> OrderView {
        OrderView {
            session_id: self.session_id@,
            vm_ip: self.vm_ip@,
            host_tap_ip: self.host_tap_ip@,
            tap_interface: self.tap_interface@,
            started_at: self.started_at,
            expires_at: self.expires_at,
            allowlist: super::types::proxy_entry_views(self.allowlist@),
            rootfs: self.rootfs@,
            vcpus: self.vcpus,
            memory_mib: self.memory_mib,
            files: super::types::file_views(self.files@),
        }
    }
}

/// The interface of the environment of that name, whose machine has the address with
/// that number. The number tells it from every other; the first eight characters of the
/// name stand in it to be read by people.
pub open spec fn tap_name(id: Seq<char>, i: int) -> Seq<char> {
    "tap-"@ + id.take(
        if id.len() < 8 {
            id.len() as int
        } else {
            8
        },
    ) + "-"@ + numbers::decimal(i as nat)
}

/// The order that meets a request with the address of that number.
pub open spec fn order_for(r: RequestView, i: int, rootfs: Seq<char>, now: u64) -> OrderView {
    OrderView {
        session_id: r.session_id,
        vm_ip: super::state::pool_ip(i),
        host_tap_ip: pool_gateway(i),
        tap_interface: tap_name(r.session_id, i),
        started_at: now,
        expires_at: Some((now + r.timeout_secs) as u64),
        allowlist: super::types::proxy_entries(r.allowlist),
        rootfs,
        vcpus: r.vcpus,
        memory_mib: r.memory_mib,
        files: r.files,
    }
}

fn interface_name(id: &str, i: u32) -> (s: String)
    ensures
        s@ == tap_name(id@, i as int),
{
    let cs = text::chars_of(id);
    let n: usize = if cs.len() < 8 {
        cs.len()
    } else {
        8
    };
    let part = text::copy_range(cs.as_slice(), 0, n);
    proof {
        assert(part@ =~= id@.take(n as int));
    }
    let mut s = prefixed("tap-", text::string_of(part.as_slice()).as_str());
    s.append("-");
    s.append(numbers::number_string(i as u64).as_str());
    s
}

/// An environment for which an address is reserved.
pub struct Reserved {
    order: Order,
}

/// An environment whose session is registered with the proxy.
pub struct Registered {
    order: Order,
}

/// An environment whose interface is made.
pub struct Connected {
    order: Order,
}

/// An environment whose traffic is led to the proxy.
pub struct Guarded {
    order: Order,
}

impl View for Reserved {
    type V = OrderView;

    closed spec fn view(&self) -> OrderView {
        self.order@
    }
}

impl View for Registered {
    type V = OrderView;

    closed spec fn view(&self) -> OrderView {
        self.order@
    }
}

impl View for Connected {
    type V = OrderView;

    closed spec fn view(&self) -> OrderView {
        self.order@
    }
}

impl View for Guarded {
    type V = OrderView;

    closed spec fn view(&self) -> OrderView {
        self.order@
    }
}

/// Whether `r`, with the manager going from `v` to `w`, is what comes of reserving.
pub open spec fn reserved(
    v: ManagerView,
    w: ManagerView,
    request: RequestView,
    image: ImageLookup,
    now: u64,
    r: Result<Reserved, Reply>,
) -> bool {
    match image {
        ImageLookup::Missing => {
            &&& w == v
            &&& r matches Err(reply) && reply@ == super::error::failure(
                ErrorCode::ImageNotFound,
                "image not found: "@ + request.image,
                None,
            )
        },
        ImageLookup::Unresolved(e) => {
            &&& w == v
            &&& r matches Err(reply) && reply@ == super::error::failure(
                ErrorCode::InternalError,
                "failed to canonicalize image path: "@ + e@,
                None,
            )
        },
        ImageLookup::Found(rootfs) => match r {
            Ok(res) => exists|i: int| #[trigger]
                super::state::lowest_free(v.allocated, i) && res@ == order_for(
                    request,
                    i,
                    rootfs@,
                    now,
                ) && w == (ManagerView {
                    allocated: v.allocated.push(super::state::pool_ip(i)),
                    ..v
                }),
            Err(reply) => {
                &&& w == v
                &&& forall|i: int|
                    0 <= i < super::state::pool_size() ==> v.allocated.contains(
                        #[trigger] super::state::pool_ip(i),
                    )
                &&& reply@ == super::error::failure(
                    ErrorCode::InternalError,
                    "failed to allocate IP: "@ + "IP pool exhausted"@,
                    None,
                )
            },
        },
    }
}

/// Reserves an address for an environment whose image was looked up.
pub fn reserve(state: &mut VmManagerState, checked: Checked, image: ImageLookup, now: u64) -> (r:
    Result<Reserved, Reply>)
    requires
        now + checked@.timeout_secs <= u64::MAX,
    ensures
        reserved(old(state)@, final(state)@, checked@, image, now, r),
        r matches Ok(res) ==> {
            &&& res@.session_id == checked@.session_id
            &&& res@.vcpus == checked@.vcpus
            &&& res@.memory_mib == checked@.memory_mib
            &&& res@.files == checked@.files
            &&& res@.started_at == now
            &&& res@.expires_at is Some && res@.expires_at->0 == now + checked@.timeout_secs
            &&& image matches ImageLookup::Found(rootfs) && res@.rootfs == rootfs@
        },
        r is Ok ==> image is Found,
{
    let request = checked.request;
    let rootfs = match image {
        ImageLookup::Missing => {
            return Err(
                json_error(
                    404,
                    ErrorCode::ImageNotFound,
                    prefixed("image not found: ", request.image.as_str()).as_str(),
                ),
            );
        },
        ImageLookup::Unresolved(e) => {
            return Err(
                json_error(
                    500,
                    ErrorCode::InternalError,
                    prefixed("failed to canonicalize image path: ", e.as_str()).as_str(),
                ),
            );
        },
        ImageLookup::Found(p) => p,
    };
    let number: u32 = match state.allocate_number() {
        Ok(i) => i,
        Err(e) => {
            return Err(
                json_error(
                    500,
                    ErrorCode::InternalError,
                    prefixed("failed to allocate IP: ", e.as_str()).as_str(),
                ),
            );
        },
    };
    let vm_ip = pool_address(number);
    let ghost i = number as int;
    proof {
        law_gateway_is_before_machine(i);
    }
    let host_tap_ip = match gateway(vm_ip.as_str()) {
        Some(s) => s,
        None => {
            assert(false);
            return Err(json_error(500, ErrorCode::InternalError, "invalid allocated IP"));
        },
    };
    let order = Order {
        tap_interface: interface_name(request.session_id.as_str(), number),
        allowlist: proxy_allowlist(&request.egress.allowlist),
        session_id: request.session_id,
        vm_ip,
        host_tap_ip,
        started_at: now,
        expires_at: Some(now + request.timeout_secs as u64),
        rootfs,
        vcpus: request.vcpus,
        memory_mib: request.memory_mib,
        files: request.files,
    };
    proof {
        assert(super::state::lowest_free(old(state)@.allocated, i));
        assert(order@ == order_for(checked@, i, rootfs@, now));
    }
    Ok(Reserved { order })
}

impl Reserved {
    /// What the proxy is asked to register.
    pub fn proxy_request(&self) -> (r: ProxySessionRequest)
        ensures
            r.session_id@ == self@.session_id,
            r.source_ip@ == self@.vm_ip,
            super::types::proxy_entry_views(r.allowlist@) == self@.allowlist,
            crate::text::opt_view(r.expires_at) == clock::optional_iso8601(self@.expires_at),
    {
        let mut allowlist: Vec<ProxyAllowlistEntry> = Vec::new();
        let mut i: usize = 0;
        while i < self.order.allowlist.len()
            invariant
                i <= self.order.allowlist@.len(),
                allowlist@.len() == i,
                forall|j: int|
                    0 <= j < i ==> (#[trigger] allowlist@[j])@ == self.order.allowlist@[j]@,
            decreases self.order.allowlist@.len() - i,
        {
            let e = &self.order.allowlist[i];
            allowlist.push(
                ProxyAllowlistEntry {
                    domain: e.domain.clone(),
                    mode: e.mode.clone(),
                    credential_ref: copy_opt(&e.credential_ref),
                },
            );
            i = i + 1;
        }
        proof {
            assert(super::types::proxy_entry_views(allowlist@)
                =~= super::types::proxy_entry_views(self.order.allowlist@));
        }
        ProxySessionRequest {
            session_id: self.order.session_id.clone(),
            source_ip: self.order.vm_ip.clone(),
            allowlist,
            expires_at: clock::format_optional(self.order.expires_at),
        }
    }
}

// ---------------------------------------------------------------------------
// Registering
// ---------------------------------------------------------------------------

/// The manager without the address of an environment that cannot be launched.
pub open spec fn given_up(v: ManagerView, ip: Seq<char>) -> ManagerView {
    ManagerView { allocated: super::state::without_text(v.allocated, ip), ..v }
}

/// The view of what the proxy answered.
pub open spec fn answer_view(r: Result<RawHttpResponse, String>) -> Result<
    (u16, Seq<char>),
    Seq<char>,
> {
    match r {
        Ok(p) => Ok((p.status, p.body@)),
        Err(e) => Err(e@),
    }
}

/// Why an environment cannot be launched after that answer of the proxy, if it cannot.
pub open spec fn proxy_refusal(answer: Result<(u16, Seq<char>), Seq<char>>) -> Option<ReplyView> {
    match answer {
        Err(e) => Some(
            super::error::failure(
                ErrorCode::ProxyUnavailable,
                "failed to register proxy session"@,
                Some(e),
            ),
        ),
        Ok((status, body)) => if status == 422 {
            Some(
                super::error::failure(
                    ErrorCode::CredentialRefInvalid,
                    "credential reference could not be resolved"@,
                    Some(body),
                ),
            )
        } else if status == 409 {
            Some(
                super::error::failure(
                    ErrorCode::SessionExists,
                    "proxy session already exists"@,
                    None,
                ),
            )
        } else if status != 201 {
            Some(
                super::error::failure(
                    ErrorCode::ProxyUnavailable,
                    "proxy returned status "@ + numbers::decimal(status as nat),
                    Some(body),
                ),
            )
        } else {
            None
        },
    }
}

/// Goes on from what the proxy answered: with its reply, or without the address.
pub fn registered(
    state: &mut VmManagerState,
    reserved: Reserved,
    answer: Result<RawHttpResponse, String>,
) -> (r: Result<(Registered, String), Reply>)
    ensures
        match r {
            Ok((next, body)) => {
                &&& proxy_refusal(answer_view(answer)) is None
                &&& answer_view(answer) == Ok::<(u16, Seq<char>), Seq<char>>((201, body@))
                &&& next@ == reserved@
                &&& final(state)@ == old(state)@
            },
            Err(reply) => {
                &&& proxy_refusal(answer_view(answer)) == Some(reply@)
                &&& final(state)@ == given_up(old(state)@, reserved@.vm_ip)
            },
        },
{
    let p = match answer {
        Ok(p) => p,
        Err(e) => {
            state.release_ip(reserved.order.vm_ip.as_str());
            return Err(
                json_error_with_detail(
                    502,
                    ErrorCode::ProxyUnavailable,
                    "failed to register proxy session",
                    e.as_str(),
                ),
            );
        },
    };
    if p.status == 422 {
        state.release_ip(reserved.order.vm_ip.as_str());
        return Err(
            json_error_with_detail(
                422,
                ErrorCode::CredentialRefInvalid,
                "credential reference could not be resolved",
                p.body.as_str(),
            ),
        );
    }
    if p.status == 409 {
        state.release_ip(reserved.order.vm_ip.as_str());
        return Err(json_error(409, ErrorCode::SessionExists, "proxy session already exists"));
    }
    if p.status != 201 {
        state.release_ip(reserved.order.vm_ip.as_str());
        return Err(
            json_error_with_detail(
                502,
                ErrorCode::ProxyUnavailable,
                prefixed(
                    "proxy returned status ",
                    numbers::number_string(p.status as u64).as_str(),
                ).as_str(),
                p.body.as_str(),
            ),
        );
    }
    Ok((Registered { order: reserved.order }, p.body))
}

// ---------------------------------------------------------------------------
// Connecting and guarding
// ---------------------------------------------------------------------------

/// Something that was done outside and has to be undone.
#[derive(Clone, Copy, Debug, PartialEq, Eq, Structural)]
pub enum Cleanup {
    /// The rules are to be removed.
    RemoveRules,
    /// The interface is to be taken away.
    RemoveTap,
    /// The session is to be deleted at the proxy.
    DeleteProxySession,
}

/// A launch that failed.
pub struct Failure {
    /// The reply to the request.
    pub reply: Reply,
    /// What is to be undone, in this order.
    pub cleanup: Vec<Cleanup>,
}

fn launch_failure(message: &str, why: &str) -> (r: Reply)
    ensures
        r@ == super::error::failure(ErrorCode::VmLaunchFailed, message@, Some(why@)),
{
    json_error_with_detail(500, ErrorCode::VmLaunchFailed, message, why)
}

impl Registered {
    /// The order.
    pub fn order(&self) -> (o: &Order)
        ensures
            o@ == self@,
    {
        &self.order
    }

    /// Goes on from what came of making the interface.
    pub fn connected(self, state: &mut VmManagerState, made: Result<(), String>) -> (r: Result<
        Connected,
        Failure,
    >)
        ensures
            match (r, made) {
                (Ok(next), Ok(_)) => next@ == self@ && final(state)@ == old(state)@,
                (Err(f), Err(e)) => {
                    &&& f.reply@ == super::error::failure(
                        ErrorCode::VmLaunchFailed,
                        "failed to set up TAP interface"@,
                        Some(e@),
                    )
                    &&& f.cleanup@ == seq![Cleanup::DeleteProxySession]
                    &&& final(state)@ == given_up(old(state)@, self@.vm_ip)
                },
                _ => false,
            },
    {
        match made {
            Ok(()) => Ok(Connected { order: self.order }),
            Err(e) => {
                state.release_ip(self.order.vm_ip.as_str());
                let mut cleanup: Vec<Cleanup> = Vec::new();
                cleanup.push(Cleanup::DeleteProxySession);
                proof {
                    assert(cleanup@ =~= seq![Cleanup::DeleteProxySession]);
                }
                Err(
                    Failure {
                        reply: launch_failure("failed to set up TAP interface", e.as_str()),
                        cleanup,
                    },
                )
            },
        }
    }
}

impl Connected {
    /// The order.
    pub fn order(&self) -> (o: &Order)
        ensures
            o@ == self@,
    {
        &self.order
    }

    /// Goes on from what came of loading the rules.
    pub fn guarded(self, state: &mut VmManagerState, made: Result<(), String>) -> (r: Result<
        Guarded,
        Failure,
    >)
        ensures
            match (r, made) {
                (Ok(next), Ok(_)) => next@ == self@ && final(state)@ == old(state)@,
                (Err(f), Err(e)) => {
                    &&& f.reply@ == super::error::failure(
                        ErrorCode::VmLaunchFailed,
                        "failed to set up nftables rules"@,
                        Some(e@),
                    )
                    &&& f.cleanup@ == seq![Cleanup::RemoveTap, Cleanup::DeleteProxySession]
                    &&& final(state)@ == given_up(old(state)@, self@.vm_ip)
                },
                _ => false,
            },
    {
        match made {
            Ok(()) => Ok(Guarded { order: self.order }),
            Err(e) => {
                state.release_ip(self.order.vm_ip.as_str());
                let mut cleanup: Vec<Cleanup> = Vec::new();
                cleanup.push(Cleanup::RemoveTap);
                cleanup.push(Cleanup::DeleteProxySession);
                proof {
                    assert(cleanup@ =~= seq![Cleanup::RemoveTap, Cleanup::DeleteProxySession]);
                }
                Err(
                    Failure {
                        reply: launch_failure("failed to set up nftables rules", e.as_str()),
                        cleanup,
                    },
                )
            },
        }
    }
}

// ---------------------------------------------------------------------------
// Launching
// ---------------------------------------------------------------------------

/// The environment that an order makes.
pub open spec fn environment_of(o: OrderView, dummy_keys: Map<Seq<char>, Seq<char>>) -> EnvView {
    EnvView {
        session_id: o.session_id,
        status: EnvironmentState::Running,
        vm_ip: o.vm_ip,
        tap_interface: o.tap_interface,
        started_at: o.started_at,
        expires_at: o.expires_at,
        dummy_keys,
    }
}

/// A new environment as it is told to the client.
pub open spec fn told(o: OrderView, dummy_keys: Map<Seq<char>, Seq<char>>) -> CreatedView {
    CreatedView {
        session_id: o.session_id,
        status: "running"@,
        vm_ip: o.vm_ip,
        tap_interface: o.tap_interface,
        proxy_id: o.session_id,
        proxy_url: "http://"@ + o.host_tap_ip + ":"@ + numbers::decimal(
            super::network::PROXY_PORT as nat,
        ),
        dummy_keys,
        serial_output_url: super::helpers::base_path() + o.session_id + "/serial"@,
        started_at: clock::iso8601_or_empty(o.started_at),
        expires_at: clock::optional_iso8601(o.expires_at),
    }
}

impl Guarded {
    /// The order.
    pub fn order(&self) -> (o: &Order)
        ensures
            o@ == self@,
    {
        &self.order
    }

    /// Enters the environment, whose machine is launched now, and tells the client
    /// of it.
    pub fn launched(self, state: &mut VmManagerState, dummy_keys: StrMap<String>) -> (r: (
        Order,
        Reply,
    ))
        ensures
            r.0@ == self@,
            r.1@ == (ReplyView {
                status: 201,
                body: BodyView::Created(told(self@, crate::strmap::text_map(dummy_keys@))),
            }),
            final(state)@ == (ManagerView {
                environments: old(state)@.environments.insert(
                    self@.session_id,
                    environment_of(self@, crate::strmap::text_map(dummy_keys@)),
                ),
                ..old(state)@
            }),
    {
        let o = self.order;
        state.put_environment(
            Environment {
                session_id: o.session_id.clone(),
                status: EnvironmentState::Running,
                vm_ip: o.vm_ip.clone(),
                tap_interface: o.tap_interface.clone(),
                started_at: o.started_at,
                expires_at: o.expires_at,
                dummy_keys: dummy_keys.copy(),
            },
        );
        let mut proxy_url = prefixed("http://", o.host_tap_ip.as_str());
        proxy_url.append(":");
        proxy_url.append(numbers::number_string(super::network::PROXY_PORT as u64).as_str());
        let mut serial_output_url = prefixed("/v1/environments/", o.session_id.as_str());
        serial_output_url.append("/serial");
        let told = EnvironmentResponse {
            session_id: o.session_id.clone(),
            status: EnvironmentState::Running.as_str().to_owned(),
            vm_ip: o.vm_ip.clone(),
            tap_interface: o.tap_interface.clone(),
            proxy_session: ProxySessionInfo { id: o.session_id.clone(), proxy_url },
            dummy_keys,
            serial_output_url,
            started_at: clock::format_or_empty(o.started_at),
            expires_at: clock::format_optional(o.expires_at),
        };
        (o, Reply { status: 201, body: Body::Created(told) })
    }
}

// ---------------------------------------------------------------------------
// Laws
// ---------------------------------------------------------------------------

/// A launch that fails after an address was reserved leaves the manager as it was.
pub proof fn law_failed_launch_leaves_nothing(v: ManagerView, i: int)
    requires
        super::state::lowest_free(v.allocated, i),
    ensures
        given_up(
            ManagerView { allocated: v.allocated.push(super::state::pool_ip(i)), ..v },
            super::state::pool_ip(i),
        ) == v,
{
    super::state::law_release_undoes_allocate(v.allocated, i);
}

proof fn lemma_after_dash(a: Seq<char>, x: nat, b: Seq<char>, y: nat)
    requires
        a + "-"@ + numbers::decimal(x) == b + "-"@ + numbers::decimal(y),
    ensures
        x == y,
{
    let p = numbers::decimal(x);
    let q = numbers::decimal(y);
    let s = a + "-"@ + p;
    reveal_strlit("-");
    numbers::lemma_decimal_reads_back(x);
    numbers::lemma_decimal_reads_back(y);
    assert(s.len() == b.len() + 1 + q.len());
    if a.len() < b.len() {
        let k = b.len() - a.len() - 1;
        assert(s[b.len() as int] == '-');
        assert(s[b.len() as int] == p[k]);
        assert(numbers::is_digit(p[k]));
    } else if b.len() < a.len() {
        let k = a.len() - b.len() - 1;
        assert(s[a.len() as int] == '-');
        assert((b + "-"@ + q)[a.len() as int] == q[k]);
        assert(numbers::is_digit(q[k]));
    }
    assert(s.skip(a.len() as int + 1) =~= p);
    assert((b + "-"@ + q).skip(b.len() as int + 1) =~= q);
}

/// Machines with different numbers have different interfaces, whatever the names of
/// their environments, and the name of an interface has at most 15 characters, which is
/// what the host takes.
pub proof fn law_interfaces_differ(a: Seq<char>, i: int, b: Seq<char>, j: int)
    requires
        0 <= i < super::state::pool_size(),
        0 <= j < super::state::pool_size(),
    ensures
        i != j ==> tap_name(a, i) != tap_name(b, j),
        tap_name(a, i).len() <= 15,
{
    reveal_strlit("tap-");
    reveal_strlit("-");
    let n = if a.len() < 8 { a.len() as int } else { 8 };
    let m = if b.len() < 8 { b.len() as int } else { 8 };
    if tap_name(a, i) == tap_name(b, j) {
        lemma_after_dash("tap-"@ + a.take(n), i as nat, "tap-"@ + b.take(m), j as nat);
    }
    assert(numbers::decimal(i as nat).len() <= 2) by {
        if i >= 10 {
            assert(i as nat / 10 < 10);
            assert(numbers::decimal(i as nat / 10).len() == 1);
        }
    }
}

/// Each machine has an interface of its own: one that is reserved while another is still
/// there, whose address is given out, gets another interface.
pub proof fn law_each_machine_has_its_interface(
    v: ManagerView,
    first: RequestView,
    i: int,
    first_rootfs: Seq<char>,
    first_start: u64,
    second: RequestView,
    j: int,
    second_rootfs: Seq<char>,
    second_start: u64,
)
    requires
        0 <= i < super::state::pool_size(),
        v.allocated.contains(order_for(first, i, first_rootfs, first_start).vm_ip),
        super::state::lowest_free(v.allocated, j),
    ensures
        ({
            let a = order_for(first, i, first_rootfs, first_start);
            let b = order_for(second, j, second_rootfs, second_start);
            a.vm_ip != b.vm_ip && a.tap_interface != b.tap_interface
        }),
{
    law_interfaces_differ(first.session_id, i, second.session_id, j);
}

/// An order carries what the request asked for: the name, the processors, the memory, the
/// files, the hosts that may be reached, and the time that the machine may run from now.
pub proof fn law_order_carries_the_request(
    r: RequestView,
    i: int,
    rootfs: Seq<char>,
    now: u64,
    k: int,
)
    requires
        now + r.timeout_secs <= u64::MAX,
    ensures
        ({
            let o = order_for(r, i, rootfs, now);
            &&& o.session_id == r.session_id
            &&& o.vcpus == r.vcpus
            &&& o.memory_mib == r.memory_mib
            &&& o.files == r.files
            &&& o.rootfs == rootfs
            &&& o.started_at == now
            &&& o.expires_at is Some && o.expires_at->0 == now + r.timeout_secs
            &&& o.allowlist.len() == r.allowlist.len()
            &&& 0 <= k < r.allowlist.len() ==> {
                &&& o.allowlist[k].domain == r.allowlist[k].domain
                &&& o.allowlist[k].credential_ref == r.allowlist[k].credential_ref
                &&& o.allowlist[k].mode == "mitm"@ <==> r.allowlist[k].inject_key
            }
            &&& o.vm_ip == super::state::pool_ip(i)
        }),
{
    reveal_strlit("mitm");
    reveal_strlit("tunnel");
    assert("mitm"@.len() != "tunnel"@.len());
}

/// The machine of an order reaches the host on the address before its own.
pub proof fn law_order_names_the_gateway(r: RequestView, i: int, rootfs: Seq<char>, now: u64)
    requires
        0 <= i < super::state::pool_size(),
    ensures
        gateway_text(order_for(r, i, rootfs, now).vm_ip) == Some(
            order_for(r, i, rootfs, now).host_tap_ip,
        ),
        ("tap-"@ + r.session_id.take(
            if r.session_id.len() < 8 {
                r.session_id.len() as int
            } else {
                8
            },
        )).is_prefix_of(order_for(r, i, rootfs, now).tap_interface),
{
    law_gateway_is_before_machine(i);
    let n = if r.session_id.len() < 8 {
        r.session_id.len() as int
    } else {
        8
    };
    let p = "tap-"@ + r.session_id.take(n);
    let t = order_for(r, i, rootfs, now).tap_interface;
    assert(t.subrange(0, p.len() as int) =~= p);
}

/// The address before one whose last number is not zero differs from it in that number
/// alone, which is one less.
pub proof fn law_gateway_is_one_less(a: nat, b: nat, c: nat, d: nat)
    requires
        a <= 255,
        b <= 255,
        c <= 255,
        d <= 255,
    ensures
        d > 0 ==> gateway_text(dotted(a, b, c, d)) == Some(dotted(a, b, c, (d - 1) as nat)),
        d == 0 ==> gateway_text(dotted(a, b, c, d)) is None,
{
    reveal_strlit(".");
    let dot = seq!['.'];
    assert("."@ =~= dot);
    let parts = seq![
        numbers::decimal(a),
        numbers::decimal(b),
        numbers::decimal(c),
        numbers::decimal(d),
    ];
    lemma_digits_without_dot(a);
    lemma_digits_without_dot(b);
    lemma_digits_without_dot(c);
    lemma_digits_without_dot(d);
    lemma_join_four(parts[0], parts[1], parts[2], parts[3], dot);
    assert(text::join(parts, dot) =~= dotted(a, b, c, d));
    text::lemma_split_join_parts(parts, '.');
    lemma_octets_four(parts, a, b, c, d);
}

/// A request is refused at once only where its name is not valid, a key is asked for
/// without a credential, or the name is taken; and with a status that says whose fault it
/// is.
pub proof fn law_sound_request_is_not_refused(v: ManagerView, r: RequestView)
    ensures
        refusal(v, RequestBodyView::Parsed(r)) is None <==> {
            &&& 8 <= r.session_id.len() <= 64
            &&& forall|i: int|
                0 <= i < r.session_id.len() ==> super::helpers::is_id_char(
                    #[trigger] r.session_id[i],
                )
            &&& forall|i: int|
                0 <= i < r.allowlist.len() && (#[trigger] r.allowlist[i]).inject_key
                    ==> r.allowlist[i].credential_ref is Some
            &&& !v.environments.dom().contains(r.session_id)
        },
        refusal(v, RequestBodyView::Parsed(r)) matches Some(reply) ==> reply.status == 400
            || reply.status == 409 && v.environments.dom().contains(r.session_id),
        refusal(v, RequestBodyView::Unreadable) matches Some(reply) && reply.status == 400,
{
}

/// A launch goes on from the proxy's answer exactly where that has status 201. A credential
/// that cannot be found, and a name that is taken, are told as such.
pub proof fn law_only_a_registered_session_goes_on(answer: Result<(u16, Seq<char>), Seq<char>>)
    ensures
        proxy_refusal(answer) is None <==> (answer matches Ok(p) && p.0 == 201),
        answer matches Ok(p) && p.0 == 422 ==> (proxy_refusal(answer) matches Some(reply)
            && reply.status == 422),
        answer matches Ok(p) && p.0 == 409 ==> (proxy_refusal(answer) matches Some(reply)
            && reply.status == 409),
        answer is Err ==> (proxy_refusal(answer) matches Some(reply) && reply.status == 502),
{
}

/// The environment that comes of an order is that of the order, and runs. The client is
/// told the same of it.
pub proof fn law_environment_is_as_ordered(o: OrderView, keys: Map<Seq<char>, Seq<char>>)
    ensures
        environment_of(o, keys).session_id == o.session_id,
        environment_of(o, keys).status == EnvironmentState::Running,
        environment_of(o, keys).vm_ip == o.vm_ip,
        environment_of(o, keys).tap_interface == o.tap_interface,
        environment_of(o, keys).started_at == o.started_at,
        environment_of(o, keys).expires_at == o.expires_at,
        environment_of(o, keys).dummy_keys == keys,
        told(o, keys).session_id == o.session_id,
        told(o, keys).status == super::state::state_text(EnvironmentState::Running),
        told(o, keys).vm_ip == o.vm_ip,
        told(o, keys).tap_interface == o.tap_interface,
        told(o, keys).proxy_id == o.session_id,
        told(o, keys).proxy_url == "http://"@ + o.host_tap_ip + ":"@ + numbers::decimal(9999),
        told(o, keys).dummy_keys == keys,
        super::helpers::path_name(told(o, keys).serial_output_url, "/serial"@) == (
        if super::helpers::is_part(o.session_id) {
            Some(o.session_id)
        } else {
            None
        }),
        told(o, keys).started_at == clock::iso8601_or_empty(o.started_at),
        told(o, keys).expires_at == clock::optional_iso8601(o.expires_at),
{
    let base = super::helpers::base_path();
    let url = base + o.session_id + "/serial"@;
    assert(url.subrange(0, base.len() as int) =~= base);
    assert(url.skip(base.len() as int) =~= o.session_id + "/serial"@);
    let rest = o.session_id + "/serial"@;
    assert(rest.subrange(rest.len() - "/serial"@.len(), rest.len() as int) =~= "/serial"@);
    assert(url.subrange(base.len() as int, url.len() - "/serial"@.len()) =~= o.session_id);
}

/// An environment that is launched is shown as running, with the address and the end that
/// it was given.
pub proof fn law_launched_environment_is_shown(
    v: ManagerView,
    o: OrderView,
    keys: Map<Seq<char>, Seq<char>>,
    now: u64,
)
    ensures
        ({
            let w = ManagerView {
                environments: v.environments.insert(o.session_id, environment_of(o, keys)),
                ..v
            };
            let r = super::api::get_reply(w, o.session_id, now);
            &&& r.status == 200
            &&& r.body matches BodyView::Status(s) && {
                &&& s.session_id == o.session_id
                &&& s.status == "running"@
                &&& s.vm_ip == o.vm_ip
                &&& s.tap_interface == o.tap_interface
                &&& s.started_at == clock::iso8601_or_empty(o.started_at)
                &&& s.expires_at == clock::optional_iso8601(o.expires_at)
                &&& now >= o.started_at ==> s.uptime_secs == now - o.started_at
            }
        }),
{
}

/// Giving up a launch frees one address and touches no environment.
pub proof fn law_giving_up_frees_one_address(v: ManagerView, ip: Seq<char>, x: Seq<char>)
    ensures
        given_up(v, ip).allocated.contains(x) <==> v.allocated.contains(x) && x != ip,
        given_up(v, ip).environments == v.environments,
        given_up(v, ip).proxy_socket == v.proxy_socket,
{
    super::state::law_one_address_is_released(v.allocated, ip, x);
}

/// An order is seen with all that it holds.
pub proof fn law_order_is_seen_whole(o: Order)
    ensures
        o@.session_id == o.session_id@,
        o@.vm_ip == o.vm_ip@,
        o@.host_tap_ip == o.host_tap_ip@,
        o@.tap_interface == o.tap_interface@,
        o@.started_at == o.started_at,
        o@.expires_at == o.expires_at,
        o@.allowlist.len() == o.allowlist@.len(),
        forall|i: int| 0 <= i < o.allowlist@.len() ==> o@.allowlist[i] == (#[trigger] o.allowlist@[i])@,
        o@.rootfs == o.rootfs@,
        o@.vcpus == o.vcpus,
        o@.memory_mib == o.memory_mib,
        o@.files.len() == o.files@.len(),
        forall|i: int| 0 <= i < o.files@.len() ==> o@.files[i] == (#[trigger] o.files@[i])@,
{
}

/// The proxy is asked to register the session of the order: under its name, for the
/// machine's address, with the hosts that it may reach, and up to its end.
pub proof fn law_proxy_is_asked_for_the_session(reserved: Reserved, r: ProxySessionRequest)
    requires
        call_ensures(Reserved::proxy_request, (&reserved,), r),
    ensures
        r.session_id@ == reserved@.session_id,
        r.source_ip@ == reserved@.vm_ip,
        r.allowlist@.len() == reserved@.allowlist.len(),
        forall|i: int|
            0 <= i < r.allowlist@.len() ==> (#[trigger] r.allowlist@[i])@ == reserved@.allowlist[i],
        r.expires_at is Some <==> clock::optional_iso8601(reserved@.expires_at) is Some,
        r.expires_at matches Some(t) ==> clock::optional_iso8601(reserved@.expires_at) == Some(t@),
{
    let l = super::types::proxy_entry_views(r.allowlist@);
    assert(l.len() == r.allowlist@.len());
    assert forall|i: int| 0 <= i < r.allowlist@.len() implies (#[trigger] r.allowlist@[i])@
        == reserved@.allowlist[i] by {
        assert(l[i] == r.allowlist@[i]@);
    }
}

/// Each machine has a net of four addresses of its own: the host has the second of them and
/// the machine the third.
pub proof fn law_machines_have_nets_of_their_own(i: int)
    requires
        0 <= i < super::state::pool_size(),
    ensures
        exists|n: nat|
            super::state::pool_ip(i) == "10.0.1."@ + #[trigger] numbers::decimal(n) && n / 4 == i && n
                % 4 == 2 && n <= 255,
        exists|n: nat|
            pool_gateway(i) == #[trigger] dotted(10, 0, 1, n) && n / 4 == i && n % 4 == 1,
        super::state::pool_size() == 64,
{
    let n = (2 + 4 * i) as nat;
    assert(super::state::pool_ip(i) == "10.0.1."@ + numbers::decimal(n));
    assert(n / 4 == i && n % 4 == 2);
    let g = (1 + 4 * i) as nat;
    assert(pool_gateway(i) == dotted(10, 0, 1, g));
    assert(g / 4 == i && g % 4 == 1);
}

/// A request whose image was found gets an address as long as one is free, the lowest, and
/// the manager changes in nothing else. Without an image, or without a free address, it is
/// refused and the manager does not change.
pub proof fn law_free_address_is_given(
    v: ManagerView,
    w: ManagerView,
    request: RequestView,
    image: ImageLookup,
    now: u64,
    r: Result<Reserved, Reply>,
    i: int,
)
    requires
        reserved(v, w, request, image, now, r),
    ensures
        r is Err ==> w == v,
        r is Ok ==> image is Found && w.environments == v.environments && w.allocated.len()
            == v.allocated.len() + 1,
        image is Found && 0 <= i < super::state::pool_size() && !v.allocated.contains(
            super::state::pool_ip(i),
        ) ==> r is Ok,
        image is Missing ==> (r matches Err(reply) && reply@.status == 404),
        image is Unresolved ==> (r matches Err(reply) && reply@.status == 500),
        r matches Ok(res) ==> !v.allocated.contains(res@.vm_ip) && w.allocated.contains(res@.vm_ip)
            && res@.host_tap_ip != res@.vm_ip,
{
    if let Ok(res) = r {
        let k = choose|k: int| #[trigger]
            super::state::lowest_free(v.allocated, k) && res@.vm_ip == super::state::pool_ip(k)
                && res@.host_tap_ip == pool_gateway(k) && w == (ManagerView {
                allocated: v.allocated.push(super::state::pool_ip(k)),
                ..v
            });
        text::lemma_push_contains(v.allocated, super::state::pool_ip(k), res@.vm_ip);
        law_gateway_is_before_machine(k);
    }
}

} // verus!
