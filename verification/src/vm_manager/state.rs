//! The environments that the manager knows, and the addresses that it gives out.

use vstd::prelude::*;

use crate::numbers;
use crate::strmap::StrMap;
use crate::text;

verus! {

// ---------------------------------------------------------------------------
// Environments
// ---------------------------------------------------------------------------

/// How an environment is.
#[derive(Clone, Copy, Debug, PartialEq, Eq, Structural)]
pub enum EnvironmentState {
    /// Its machine runs.
    Running,
    /// It is being taken down.
    ShuttingDown,
    /// It was taken down.
    Exited,
    /// Its machine could not be launched.
    Failed,
}

/// The text of a state.
pub open spec fn state_text(s: EnvironmentState) -> Seq<char> {
    match s {
        EnvironmentState::Running => "running"@,
        EnvironmentState::ShuttingDown => "shutting_down"@,
        EnvironmentState::Exited => "exited"@,
        EnvironmentState::Failed => "failed"@,
    }
}

impl EnvironmentState {
    /// The text of the state.
    pub fn as_str(&self) -> (s: &'static str)
        ensures
            s@ == state_text(*self),
    {
        match self {
            EnvironmentState::Running => "running",
            EnvironmentState::ShuttingDown => "shutting_down",
            EnvironmentState::Exited => "exited",
            EnvironmentState::Failed => "failed",
        }
    }
}

/// An environment.
pub struct Environment {
    /// Its name.
    pub session_id: String,
    /// How it is.
    pub status: EnvironmentState,
    /// The address of its machine.
    pub vm_ip: String,
    /// The interface that its machine is connected to.
    pub tap_interface: String,
    /// When it was started, in Unix seconds.
    pub started_at: u64,
    /// When it ends, in Unix seconds.
    pub expires_at: Option<u64>,
    /// The dummy key of each credential.
    pub dummy_keys: StrMap<String>,
}

/// The texts and times of an environment.
pub struct EnvView {
    /// Its name.
    pub session_id: Seq<char>,
    /// How it is.
    pub status: EnvironmentState,
    /// The address of its machine.
    pub vm_ip: Seq<char>,
    /// The interface that its machine is connected to.
    pub tap_interface: Seq<char>,
    /// When it was started.
    pub started_at: u64,
    /// When it ends.
    pub expires_at: Option<u64>,
    /// The dummy key of each credential.
    pub dummy_keys: Map<Seq<char>, Seq<char>>,
}

impl View for Environment {
    type V = EnvView;

    open spec fn view(&self) -> EnvView {
        EnvView {
            session_id: self.session_id@,
            status: self.status,
            vm_ip: self.vm_ip@,
            tap_interface: self.tap_interface@,
            started_at: self.started_at,
            expires_at: self.expires_at,
            dummy_keys: crate::strmap::text_map(self.dummy_keys@),
        }
    }
}

impl Environment {
    fn copy(&self) -> (r: Environment)
        ensures
            r@ == self@,
    {
        Environment {
            session_id: self.session_id.clone(),
            status: self.status,
            vm_ip: self.vm_ip.clone(),
            tap_interface: self.tap_interface.clone(),
            started_at: self.started_at,
            expires_at: self.expires_at,
            dummy_keys: self.dummy_keys.copy(),
        }
    }
}

/// The views of a map of environments.
pub open spec fn env_views(m: Map<Seq<char>, Environment>) -> Map<Seq<char>, EnvView> {
    Map::new(|k: Seq<char>| m.dom().contains(k), |k: Seq<char>| m[k]@)
}

// ---------------------------------------------------------------------------
// Addresses
// ---------------------------------------------------------------------------

/// The number of addresses that can be given out.
pub open spec fn pool_size() -> int {
    64
}

/// The address with that number: one in each group of four, the third of them.
pub open spec fn pool_ip(i: int) -> Seq<char> {
    "10.0.1."@ + numbers::decimal((2 + 4 * i) as nat)
}

/// The address with that number.
pub fn pool_address(i: u32) -> (s: String)
    requires
        i < 64,
    ensures
        s@ == pool_ip(i as int),
{
    let last: u64 = 2 + 4 * (i as u64);
    crate::text::prefixed("10.0.1.", numbers::number_string(last).as_str())
}

/// Whether `i` is the lowest number whose address is free.
pub open spec fn lowest_free(allocated: Seq<Seq<char>>, i: int) -> bool {
    &&& 0 <= i < pool_size()
    &&& !allocated.contains(pool_ip(i))
    &&& forall|j: int| 0 <= j < i ==> allocated.contains(#[trigger] pool_ip(j))
}

/// Being another text than `ip`.
pub open spec fn other_than(ip: Seq<char>) -> spec_fn(Seq<char>) -> bool {
    |x: Seq<char>| x != ip
}

/// The run of texts without those that are `ip`.
pub open spec fn without_text(s: Seq<Seq<char>>, ip: Seq<char>) -> Seq<Seq<char>> {
    s.filter(other_than(ip))
}

// ---------------------------------------------------------------------------
// The manager
// ---------------------------------------------------------------------------

/// What the manager knows.
pub struct VmManagerState {
    /// The environments, by name.
    pub environments: StrMap<Environment>,
    /// Where the proxy's session interface is.
    pub proxy_socket: String,
    /// The addresses that are given out.
    pub allocated_ips: Vec<String>,
}

/// The view of what the manager knows.
pub struct ManagerView {
    /// The environments, by name.
    pub environments: Map<Seq<char>, EnvView>,
    /// The addresses that are given out.
    pub allocated: Seq<Seq<char>>,
    /// Where the proxy's session interface is.
    pub proxy_socket: Seq<char>,
}

impl View for VmManagerState {
    type V = ManagerView;

    open spec fn view(&self) -> ManagerView {
        ManagerView {
            environments: env_views(self.environments@),
            allocated: crate::text::string_views(self.allocated_ips@),
            proxy_socket: self.proxy_socket@,
        }
    }
}

impl VmManagerState {
    /// A manager that knows no environments, and finds the proxy at its usual place.
    pub fn new() -> (r: VmManagerState)
        ensures
            r@ == fresh("/run/ae-proxy.sock"@),
    {
        VmManagerState::with_proxy_socket("/run/ae-proxy.sock")
    }

    /// A manager that knows no environments, and finds the proxy at that place.
    pub fn with_proxy_socket(proxy_socket: &str) -> (r: VmManagerState)
        ensures
            r@ == fresh(proxy_socket@),
    {
        let environments: StrMap<Environment> = StrMap::new();
        let allocated_ips: Vec<String> = Vec::new();
        proof {
            assert(env_views(environments@) =~= Map::empty());
            assert(crate::text::string_views(allocated_ips@) =~= Seq::empty());
        }
        VmManagerState { environments, proxy_socket: proxy_socket.to_owned(), allocated_ips }
    }

    fn is_allocated(&self, ip: &str) -> (r: bool)
        ensures
            r == self@.allocated.contains(ip@),
    {
        let ghost all = self@.allocated;
        let mut i: usize = 0;
        while i < self.allocated_ips.len()
            invariant
                all == crate::text::string_views(self.allocated_ips@),
                i <= self.allocated_ips@.len(),
                forall|j: int| 0 <= j < i ==> #[trigger] all[j] != ip@,
            decreases self.allocated_ips@.len() - i,
        {
            if text::same_str(self.allocated_ips[i].as_str(), ip) {
                assert(all[i as int] == ip@);
                return true;
            }
            i = i + 1;
        }
        false
    }

    /// Gives out the lowest address that is free.
    pub fn allocate_ip(&mut self) -> (r: Result<String, String>)
        ensures
            match r {
                Ok(ip) => final(self)@ == (ManagerView {
                    allocated: old(self)@.allocated.push(ip@),
                    ..old(self)@
                }) && exists|i: int| #[trigger]
                    lowest_free(old(self)@.allocated, i) && ip@ == pool_ip(i),
                Err(e) => e@ == "IP pool exhausted"@ && final(self)@ == old(self)@ && forall|i: int|
                    0 <= i < pool_size() ==> old(self)@.allocated.contains(#[trigger] pool_ip(i)),
            },
    {
        match self.allocate_number() {
            Ok(i) => {
                assert(lowest_free(old(self)@.allocated, i as int));
                Ok(pool_address(i))
            },
            Err(e) => Err(e),
        }
    }

    /// Gives out the lowest address that is free, and tells its number.
    pub fn allocate_number(&mut self) -> (r: Result<u32, String>)
        ensures
            match r {
                Ok(i) => lowest_free(old(self)@.allocated, i as int) && final(self)@ == (
                ManagerView {
                    allocated: old(self)@.allocated.push(pool_ip(i as int)),
                    ..old(self)@
                }),
                Err(e) => e@ == "IP pool exhausted"@ && final(self)@ == old(self)@ && forall|i: int|
                    0 <= i < pool_size() ==> old(self)@.allocated.contains(#[trigger] pool_ip(i)),
            },
    {
        let mut i: u32 = 0;
        while i < 64
            invariant
                i <= 64,
                self@ == old(self)@,
                forall|j: int| 0 <= j < i ==> self@.allocated.contains(#[trigger] pool_ip(j)),
            decreases 64 - i,
        {
            let ip = pool_address(i);
            if !self.is_allocated(ip.as_str()) {
                assert(lowest_free(self@.allocated, i as int));
                let ghost before = self.allocated_ips@;
                self.allocated_ips.push(ip);
                proof {
                    assert(crate::text::string_views(self.allocated_ips@)
                        =~= crate::text::string_views(before).push(ip@));
                }
                return Ok(i);
            }
            i = i + 1;
        }
        Err("IP pool exhausted".to_owned())
    }

    /// Takes an address back.
    pub fn release_ip(&mut self, ip: &str)
        ensures
            final(self)@ == (ManagerView {
                allocated: without_text(old(self)@.allocated, ip@),
                ..old(self)@
            }),
    {
        let ghost all = self@.allocated;
        let ghost keep = other_than(ip@);
        let mut kept: Vec<String> = Vec::new();
        let mut i: usize = 0;
        proof {
            reveal(Seq::filter);
            assert(crate::text::string_views(kept@) =~= all.take(0).filter(keep));
        }
        while i < self.allocated_ips.len()
            invariant
                all == crate::text::string_views(self.allocated_ips@),
                keep == other_than(ip@),
                i <= self.allocated_ips@.len(),
                crate::text::string_views(kept@) == all.take(i as int).filter(keep),
            decreases self.allocated_ips@.len() - i,
        {
            let ghost before = kept@;
            proof {
                reveal(Seq::filter);
                assert(all.take(i + 1).drop_last() =~= all.take(i as int));
                assert(all.take(i + 1).last() == self.allocated_ips@[i as int]@);
            }
            if !text::same_str(self.allocated_ips[i].as_str(), ip) {
                kept.push(self.allocated_ips[i].clone());
                proof {
                    assert(crate::text::string_views(kept@)
                        =~= crate::text::string_views(before).push(
                        self.allocated_ips@[i as int]@,
                    ));
                }
            }
            i = i + 1;
        }
        proof {
            assert(all.take(i as int) =~= all);
        }
        self.allocated_ips = kept;
    }

    /// Puts an environment under its name, in place of the one that was there.
    pub fn put_environment(&mut self, env: Environment)
        ensures
            final(self)@ == (ManagerView {
                environments: old(self)@.environments.insert(env.session_id@, env@),
                ..old(self)@
            }),
            final(self).environments.order() == (if old(self)@.environments.dom().contains(
                env.session_id@,
            ) {
                old(self).environments.order()
            } else {
                old(self).environments.order().push(env.session_id@)
            }),
    {
        proof {
            assert(env_views(self.environments@.insert(env.session_id@, env)) =~= env_views(
                self.environments@,
            ).insert(env.session_id@, env@));
        }
        self.environments.insert(env.session_id.clone(), env);
    }

    /// Changes how an environment is. Whether there is one of that name.
    pub fn set_status(&mut self, session_id: &str, status: EnvironmentState) -> (r: bool)
        ensures
            r == old(self)@.environments.dom().contains(session_id@),
            final(self)@ == with_status(old(self)@, session_id@, status),
    {
        let mut env = match self.environments.get(session_id) {
            Some(e) => e.copy(),
            None => {
                return false;
            },
        };
        env.status = status;
        proof {
            assert(env_views(self.environments@.insert(session_id@, env)) =~= env_views(
                self.environments@,
            ).insert(session_id@, env@));
        }
        self.environments.insert(session_id.to_owned(), env);
        true
    }

    /// Whether there is an environment of that name.
    pub fn knows(&self, session_id: &str) -> (r: bool)
        ensures
            r == self@.environments.dom().contains(session_id@),
    {
        self.environments.contains_key(session_id)
    }
}

impl Default for VmManagerState {
    fn default() -> (r: VmManagerState)
        ensures
            r@ == fresh("/run/ae-proxy.sock"@),
    {
        VmManagerState::new()
    }
}

/// A manager that knows nothing.
pub open spec fn fresh(proxy_socket: Seq<char>) -> ManagerView {
    ManagerView { environments: Map::empty(), allocated: Seq::empty(), proxy_socket }
}

/// The manager once the environment of that name, if there is one, is in that state.
pub open spec fn with_status(v: ManagerView, id: Seq<char>, status: EnvironmentState) -> ManagerView {
    if v.environments.dom().contains(id) {
        ManagerView {
            environments: v.environments.insert(
                id,
                EnvView { status, ..v.environments[id] },
            ),
            ..v
        }
    } else {
        v
    }
}

// ---------------------------------------------------------------------------
// Laws
// ---------------------------------------------------------------------------

/// Two different numbers have different addresses.
pub proof fn law_pool_addresses_differ(i: int, j: int)
    requires
        0 <= i,
        0 <= j,
        pool_ip(i) == pool_ip(j),
    ensures
        i == j,
{
    let n = "10.0.1."@.len() as int;
    assert(pool_ip(i).skip(n) =~= numbers::decimal((2 + 4 * i) as nat));
    assert(pool_ip(j).skip(n) =~= numbers::decimal((2 + 4 * j) as nat));
    numbers::lemma_decimal_reads_back((2 + 4 * i) as nat);
    numbers::lemma_decimal_reads_back((2 + 4 * j) as nat);
}

/// No address is given out twice: one that is given out was free, so the addresses
/// that are given out stay different from each other.
pub proof fn law_addresses_stay_apart(allocated: Seq<Seq<char>>, i: int)
    requires
        allocated.no_duplicates(),
        lowest_free(allocated, i),
    ensures
        allocated.push(pool_ip(i)).no_duplicates(),
{
}

/// An address that was given out last and is taken back leaves things as they were.
pub proof fn law_release_undoes_allocate(allocated: Seq<Seq<char>>, i: int)
    requires
        lowest_free(allocated, i),
    ensures
        without_text(allocated.push(pool_ip(i)), pool_ip(i)) == allocated,
{
    lemma_release_last(allocated, pool_ip(i));
}

proof fn lemma_release_last(allocated: Seq<Seq<char>>, ip: Seq<char>)
    requires
        !allocated.contains(ip),
    ensures
        without_text(allocated.push(ip), ip) == allocated,
{
    let keep = other_than(ip);
    reveal(Seq::filter);
    assert(allocated.push(ip).drop_last() =~= allocated);
    assert(allocated.push(ip).last() == ip);
    assert forall|k: int| 0 <= k < allocated.len() implies keep(#[trigger] allocated[k]) by {
        assert(allocated.contains(allocated[k]));
    }
    lemma_filter_keeps_all(allocated, keep);
}

proof fn lemma_filter_keeps_all(s: Seq<Seq<char>>, keep: spec_fn(Seq<char>) -> bool)
    requires
        forall|k: int| 0 <= k < s.len() ==> keep(#[trigger] s[k]),
    ensures
        s.filter(keep) == s,
    decreases s.len(),
{
    reveal(Seq::filter);
    if s.len() > 0 {
        lemma_filter_keeps_all(s.drop_last(), keep);
        assert(s.drop_last().push(s.last()) =~= s);
        assert(keep(s[s.len() - 1]));
    } else {
        assert(s.filter(keep) =~= s);
    }
}

proof fn lemma_without_contains(s: Seq<Seq<char>>, ip: Seq<char>, x: Seq<char>)
    ensures
        without_text(s, ip).contains(x) <==> s.contains(x) && x != ip,
    decreases s.len(),
{
    reveal(Seq::filter);
    let keep = other_than(ip);
    if s.len() > 0 {
        let init = s.drop_last();
        lemma_without_contains(init, ip, x);
        let f = init.filter(keep);
        if s.contains(x) && x != ip {
            let k = s.index_of(x);
            if k < init.len() {
                assert(init[k] == x);
            }
        }
        if init.contains(x) {
            assert(s[init.index_of(x)] == x);
        }
        assert(s[s.len() - 1] == s.last());
        if keep(s.last()) {
            assert(s.filter(keep) == f.push(s.last()));
            assert(f.push(s.last())[f.len() as int] == s.last());
            if f.contains(x) {
                assert(f.push(s.last())[f.index_of(x)] == x);
            }
            if f.push(s.last()).contains(x) && x != s.last() {
                let k = f.push(s.last()).index_of(x);
                assert(f[k] == x);
            }
        }
    }
}

/// An address that is taken back is free again, and is given out next where every
/// lower one is in use.
pub proof fn law_released_address_comes_back(allocated: Seq<Seq<char>>, i: int)
    requires
        0 <= i < pool_size(),
        forall|j: int| 0 <= j < i ==> allocated.contains(#[trigger] pool_ip(j)),
    ensures
        lowest_free(without_text(allocated, pool_ip(i)), i),
{
    let ip = pool_ip(i);
    lemma_without_contains(allocated, ip, ip);
    assert forall|j: int| 0 <= j < i implies without_text(allocated, ip).contains(
        #[trigger] pool_ip(j),
    ) by {
        lemma_without_contains(allocated, ip, pool_ip(j));
        if pool_ip(j) == ip {
            law_pool_addresses_differ(j, i);
        }
    }
}

/// A change of status is one of that environment alone, and of nothing else in it.
pub proof fn law_only_the_status_changes(
    v: ManagerView,
    id: Seq<char>,
    status: EnvironmentState,
    other: Seq<char>,
)
    requires
        v.environments.dom().contains(other),
    ensures
        ({
            let w = with_status(v, id, status);
            &&& w.environments.dom() == v.environments.dom()
            &&& other != id ==> w.environments[other] == v.environments[other]
            &&& other == id ==> w.environments[id].status == status
            &&& w.environments[other].session_id == v.environments[other].session_id
            &&& w.environments[other].vm_ip == v.environments[other].vm_ip
            &&& w.environments[other].tap_interface == v.environments[other].tap_interface
            &&& w.environments[other].started_at == v.environments[other].started_at
            &&& w.environments[other].expires_at == v.environments[other].expires_at
            &&& w.environments[other].dummy_keys == v.environments[other].dummy_keys
            &&& w.allocated == v.allocated
            &&& w.proxy_socket == v.proxy_socket
        }),
{
    assert(with_status(v, id, status).environments.dom() =~= v.environments.dom());
}

/// An address that is released is free; every other one is given out as before.
pub proof fn law_one_address_is_released(s: Seq<Seq<char>>, ip: Seq<char>, x: Seq<char>)
    ensures
        without_text(s, ip).contains(x) <==> s.contains(x) && x != ip,
{
    lemma_without_contains(s, ip, x);
}

/// A new manager has no environments, and all addresses are free; it talks to the proxy at
/// the place that it was given.
pub proof fn law_new_manager_is_empty(proxy_socket: Seq<char>, i: int)
    ensures
        forall|id: Seq<char>| !(#[trigger] fresh(proxy_socket).environments.dom().contains(id)),
        !fresh(proxy_socket).allocated.contains(pool_ip(i)),
        fresh(proxy_socket).proxy_socket == proxy_socket,
        lowest_free(fresh(proxy_socket).allocated, 0),
{
}

/// An environment is seen with all that it holds.
pub proof fn law_environment_is_seen_whole(e: Environment)
    ensures
        e@.session_id == e.session_id@,
        e@.status == e.status,
        e@.vm_ip == e.vm_ip@,
        e@.tap_interface == e.tap_interface@,
        e@.started_at == e.started_at,
        e@.expires_at == e.expires_at,
        forall|k: Seq<char>|
            (#[trigger] e@.dummy_keys.dom().contains(k) <==> e.dummy_keys@.dom().contains(k)) && (
            e.dummy_keys@.dom().contains(k) ==> e@.dummy_keys[k] == e.dummy_keys@[k]@),
{
}

/// Each status has a text of its own.
pub proof fn law_status_text_tells_status(a: EnvironmentState, b: EnvironmentState)
    requires
        state_text(a) == state_text(b),
    ensures
        a == b,
{
    reveal_strlit("running");
    reveal_strlit("shutting_down");
    reveal_strlit("exited");
    reveal_strlit("failed");
    assert("running"@.len() == 7 && "shutting_down"@.len() == 13 && "exited"@.len() == 6
        && "failed"@.len() == 6);
    assert("exited"@[0] == 'e' && "failed"@[0] == 'f');
}

/// A manager is seen with all that it holds.
pub proof fn law_manager_is_seen_whole(s: VmManagerState, id: Seq<char>)
    ensures
        s@.environments.dom().contains(id) <==> s.environments@.dom().contains(id),
        s.environments@.dom().contains(id) ==> s@.environments[id] == s.environments@[id]@,
        s@.allocated.len() == s.allocated_ips@.len(),
        forall|i: int|
            0 <= i < s.allocated_ips@.len() ==> s@.allocated[i] == (#[trigger] s.allocated_ips@[i])@,
        s@.proxy_socket == s.proxy_socket@,
{
}

} // verus!
