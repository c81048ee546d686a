//! Requests and replies of the manager's interface.

use vstd::prelude::*;

use crate::session::EntryView;
use crate::text::copy_opt;
use crate::strmap::StrMap;

verus! {

// ---------------------------------------------------------------------------
// Requests
// ---------------------------------------------------------------------------

/// A request for a new environment.
#[derive(Debug)]
pub struct CreateEnvironmentRequest {
    /// The name of the environment.
    pub session_id: String,
    /// The image that the machine boots from.
    pub image: String,
    /// The number of its processors.
    pub vcpus: u32,
    /// Its memory, in MiB.
    pub memory_mib: u32,
    /// What is put into it.
    pub files: Vec<FileEntry>,
    /// What it may reach.
    pub egress: EgressConfig,
    /// How long it may run, in seconds.
    pub timeout_secs: u32,
}

/// The number of processors where none is asked for.
pub fn default_vcpus() -> (n: u32)
    ensures
        n == 1,
{
    1
}

/// The memory, in MiB, where none is asked for.
pub fn default_memory_mib() -> (n: u32)
    ensures
        n == 512,
{
    512
}

/// How long a machine may run, in seconds, where nothing is asked for.
pub fn default_timeout_secs() -> (n: u32)
    ensures
        n == 3600,
{
    3600
}

/// Something that is put into a machine.
#[derive(Debug)]
pub struct FileEntry {
    /// Where it is put.
    pub guest_path: String,
    /// Where it comes from: `inline`, `git` or `path`.
    pub source: String,
    /// Its content, if it comes inline.
    pub content: Option<String>,
    /// The repository, if it comes from git.
    pub url: Option<String>,
    /// The branch, tag or commit, if it comes from git.
    pub git_ref: Option<String>,
    /// The place on the host, if it comes from there.
    pub path: Option<String>,
}

/// The texts of something that is put into a machine.
pub struct FileView {
    /// Where it is put.
    pub guest_path: Seq<char>,
    /// Where it comes from.
    pub source: Seq<char>,
    /// Its content.
    pub content: Option<Seq<char>>,
    /// The repository.
    pub url: Option<Seq<char>>,
    /// The branch, tag or commit.
    pub git_ref: Option<Seq<char>>,
    /// The place on the host.
    pub path: Option<Seq<char>>,
}

impl View for FileEntry {
    type V = FileView;

    open spec fn view(&self) -> FileView {
        FileView {
            guest_path: self.guest_path@,
            source: self.source@,
            content: crate::text::opt_view(self.content),
            url: crate::text::opt_view(self.url),
            git_ref: crate::text::opt_view(self.git_ref),
            path: crate::text::opt_view(self.path),
        }
    }
}

/// The views of a run of files.
pub open spec fn file_views(s: Seq<FileEntry>) -> Seq<FileView> {
    Seq::new(s.len(), |i: int| s[i]@)
}

/// What a machine may reach.
#[derive(Debug)]
pub struct EgressConfig {
    /// The hosts.
    pub allowlist: Vec<EgressAllowlistEntry>,
}

/// A host that a machine may reach.
#[derive(Debug)]
pub struct EgressAllowlistEntry {
    /// The host name.
    pub domain: String,
    /// Whether a key is put into connections to it.
    pub inject_key: bool,
    /// Where the key is kept.
    pub credential_ref: Option<String>,
}

/// The fields of an egress entry.
pub struct EgressView {
    /// The host name.
    pub domain: Seq<char>,
    /// Whether a key is put into connections to it.
    pub inject_key: bool,
    /// Where the key is kept.
    pub credential_ref: Option<Seq<char>>,
}

impl View for EgressAllowlistEntry {
    type V = EgressView;

    open spec fn view(&self) -> EgressView {
        EgressView {
            domain: self.domain@,
            inject_key: self.inject_key,
            credential_ref: crate::text::opt_view(self.credential_ref),
        }
    }
}

/// The views of a run of egress entries.
pub open spec fn egress_views(s: Seq<EgressAllowlistEntry>) -> Seq<EgressView> {
    Seq::new(s.len(), |i: int| s[i]@)
}

/// The fields of a request for a new environment.
pub struct RequestView {
    /// The name of the environment.
    pub session_id: Seq<char>,
    /// The image that the machine boots from.
    pub image: Seq<char>,
    /// The number of its processors.
    pub vcpus: u32,
    /// Its memory.
    pub memory_mib: u32,
    /// What is put into it.
    pub files: Seq<FileView>,
    /// The hosts that it may reach.
    pub allowlist: Seq<EgressView>,
    /// How long it may run.
    pub timeout_secs: u32,
}

impl View for CreateEnvironmentRequest {
    type V = RequestView;

    open spec fn view(&self) -> RequestView {
        RequestView {
            session_id: self.session_id@,
            image: self.image@,
            vcpus: self.vcpus,
            memory_mib: self.memory_mib,
            files: file_views(self.files@),
            allowlist: egress_views(self.egress.allowlist@),
            timeout_secs: self.timeout_secs,
        }
    }
}

/// A host in a request to the proxy.
#[derive(Debug)]
pub struct ProxyAllowlistEntry {
    /// The host name.
    pub domain: String,
    /// `mitm` or `tunnel`.
    pub mode: String,
    /// Where the key is kept.
    pub credential_ref: Option<String>,
}

impl View for ProxyAllowlistEntry {
    type V = EntryView;

    open spec fn view(&self) -> EntryView {
        EntryView {
            domain: self.domain@,
            mode: self.mode@,
            credential_ref: crate::text::opt_view(self.credential_ref),
        }
    }
}

/// The views of a run of hosts in a request to the proxy.
pub open spec fn proxy_entry_views(s: Seq<ProxyAllowlistEntry>) -> Seq<EntryView> {
    Seq::new(s.len(), |i: int| s[i]@)
}

/// A host in a request to the proxy: a key is put into its connections if the
/// request for the environment says so.
pub open spec fn proxy_entry(e: EgressView) -> EntryView {
    EntryView {
        domain: e.domain,
        mode: if e.inject_key {
            "mitm"@
        } else {
            "tunnel"@
        },
        credential_ref: e.credential_ref,
    }
}

/// The hosts in a request to the proxy.
pub open spec fn proxy_entries(l: Seq<EgressView>) -> Seq<EntryView> {
    Seq::new(l.len(), |i: int| proxy_entry(l[i]))
}

/// The hosts in a request to the proxy.
pub fn proxy_allowlist(l: &Vec<EgressAllowlistEntry>) -> (r: Vec<ProxyAllowlistEntry>)
    ensures
        proxy_entry_views(r@) == proxy_entries(egress_views(l@)),
{
    let mut r: Vec<ProxyAllowlistEntry> = Vec::new();
    let mut i: usize = 0;
    while i < l.len()
        invariant
            i <= l@.len(),
            r@.len() == i,
            forall|j: int| 0 <= j < i ==> (#[trigger] r@[j])@ == proxy_entry(l@[j]@),
        decreases l@.len() - i,
    {
        let mode = if l[i].inject_key {
            "mitm".to_owned()
        } else {
            "tunnel".to_owned()
        };
        r.push(
            ProxyAllowlistEntry {
                domain: l[i].domain.clone(),
                mode,
                credential_ref: copy_opt(&l[i].credential_ref),
            },
        );
        i = i + 1;
    }
    proof {
        assert(proxy_entry_views(r@) =~= proxy_entries(egress_views(l@)));
    }
    r
}

// ---------------------------------------------------------------------------
// Replies
// ---------------------------------------------------------------------------

/// The session of a machine at the proxy.
#[derive(Debug)]
pub struct ProxySessionInfo {
    /// Its name.
    pub id: String,
    /// Where the machine finds the proxy.
    pub proxy_url: String,
}

/// A new environment as it is told to a client.
pub struct EnvironmentResponse {
    /// The name of the environment.
    pub session_id: String,
    /// How it is.
    pub status: String,
    /// The address of the machine.
    pub vm_ip: String,
    /// The interface that it is connected to.
    pub tap_interface: String,
    /// Its session at the proxy.
    pub proxy_session: ProxySessionInfo,
    /// The dummy key of each credential.
    pub dummy_keys: StrMap<String>,
    /// Where its console can be read.
    pub serial_output_url: String,
    /// When it was started, as an ISO 8601 text.
    pub started_at: String,
    /// When it ends, as an ISO 8601 text.
    pub expires_at: Option<String>,
}

/// The texts of a new environment.
pub struct CreatedView {
    /// The name of the environment.
    pub session_id: Seq<char>,
    /// How it is.
    pub status: Seq<char>,
    /// The address of the machine.
    pub vm_ip: Seq<char>,
    /// The interface that it is connected to.
    pub tap_interface: Seq<char>,
    /// The name of its session at the proxy.
    pub proxy_id: Seq<char>,
    /// Where the machine finds the proxy.
    pub proxy_url: Seq<char>,
    /// The dummy key of each credential.
    pub dummy_keys: Map<Seq<char>, Seq<char>>,
    /// Where its console can be read.
    pub serial_output_url: Seq<char>,
    /// When it was started.
    pub started_at: Seq<char>,
    /// When it ends.
    pub expires_at: Option<Seq<char>>,
}

impl View for EnvironmentResponse {
    type V = CreatedView;

    open spec fn view(&self) -> CreatedView {
        CreatedView {
            session_id: self.session_id@,
            status: self.status@,
            vm_ip: self.vm_ip@,
            tap_interface: self.tap_interface@,
            proxy_id: self.proxy_session.id@,
            proxy_url: self.proxy_session.proxy_url@,
            dummy_keys: crate::strmap::text_map(self.dummy_keys@),
            serial_output_url: self.serial_output_url@,
            started_at: self.started_at@,
            expires_at: crate::text::opt_view(self.expires_at),
        }
    }
}

/// How an environment is, as it is told to a client.
#[derive(Debug)]
pub struct EnvironmentStatusResponse {
    /// The name of the environment.
    pub session_id: String,
    /// How it is.
    pub status: String,
    /// The address of the machine.
    pub vm_ip: String,
    /// The interface that it is connected to.
    pub tap_interface: String,
    /// The name of its session at the proxy.
    pub proxy_session_id: String,
    /// When it was started, as an ISO 8601 text.
    pub started_at: String,
    /// When it ends, as an ISO 8601 text.
    pub expires_at: Option<String>,
    /// For how long it has been there, in seconds.
    pub uptime_secs: u64,
}

/// The texts of the state of an environment.
pub struct StatusView {
    /// The name of the environment.
    pub session_id: Seq<char>,
    /// How it is.
    pub status: Seq<char>,
    /// The address of the machine.
    pub vm_ip: Seq<char>,
    /// The interface that it is connected to.
    pub tap_interface: Seq<char>,
    /// The name of its session at the proxy.
    pub proxy_session_id: Seq<char>,
    /// When it was started.
    pub started_at: Seq<char>,
    /// When it ends.
    pub expires_at: Option<Seq<char>>,
    /// For how long it has been there.
    pub uptime_secs: u64,
}

impl View for EnvironmentStatusResponse {
    type V = StatusView;

    open spec fn view(&self) -> StatusView {
        StatusView {
            session_id: self.session_id@,
            status: self.status@,
            vm_ip: self.vm_ip@,
            tap_interface: self.tap_interface@,
            proxy_session_id: self.proxy_session_id@,
            started_at: self.started_at@,
            expires_at: crate::text::opt_view(self.expires_at),
            uptime_secs: self.uptime_secs,
        }
    }
}

/// One line of a list of environments.
#[derive(Debug)]
pub struct EnvironmentSummary {
    /// The name of the environment.
    pub session_id: String,
    /// How it is.
    pub status: String,
    /// The address of the machine.
    pub vm_ip: String,
    /// When it was started, as an ISO 8601 text.
    pub started_at: String,
    /// For how long it has been there, in seconds.
    pub uptime_secs: u64,
}

/// The texts of a line of a list of environments.
pub struct SummaryView {
    /// The name of the environment.
    pub session_id: Seq<char>,
    /// How it is.
    pub status: Seq<char>,
    /// The address of the machine.
    pub vm_ip: Seq<char>,
    /// When it was started.
    pub started_at: Seq<char>,
    /// For how long it has been there.
    pub uptime_secs: u64,
}

impl View for EnvironmentSummary {
    type V = SummaryView;

    open spec fn view(&self) -> SummaryView {
        SummaryView {
            session_id: self.session_id@,
            status: self.status@,
            vm_ip: self.vm_ip@,
            started_at: self.started_at@,
            uptime_secs: self.uptime_secs,
        }
    }
}

/// The views of a run of lines.
pub open spec fn summary_views(s: Seq<EnvironmentSummary>) -> Seq<SummaryView> {
    Seq::new(s.len(), |i: int| s[i]@)
}

/// A list of environments.
#[derive(Debug)]
pub struct EnvironmentListResponse {
    /// One line for each environment.
    pub environments: Vec<EnvironmentSummary>,
}

/// An environment that is taken down, as it is told to a client.
#[derive(Debug)]
pub struct DeleteResponse {
    /// The name of the environment.
    pub session_id: String,
    /// How it is.
    pub status: String,
}

/// The texts of an environment that is taken down.
pub struct DeletedView {
    /// The name of the environment.
    pub session_id: Seq<char>,
    /// How it is.
    pub status: Seq<char>,
}

impl View for DeleteResponse {
    type V = DeletedView;

    open spec fn view(&self) -> DeletedView {
        DeletedView { session_id: self.session_id@, status: self.status@ }
    }
}

/// A host that a machine may reach is put to the proxy under the same name and with the
/// same credential. A key is put into its connections exactly where that was asked for;
/// else they are handed on as they are.
pub proof fn law_entry_is_put_to_the_proxy(l: Seq<EgressView>, i: int)
    requires
        0 <= i < l.len(),
    ensures
        proxy_entries(l).len() == l.len(),
        proxy_entries(l)[i].domain == l[i].domain,
        proxy_entries(l)[i].credential_ref == l[i].credential_ref,
        l[i].inject_key ==> proxy_entries(l)[i].mode == "mitm"@,
        !l[i].inject_key ==> proxy_entries(l)[i].mode == "tunnel"@,
{
}

/// A request for an environment is seen with all that it holds.
pub proof fn law_request_is_seen_whole(
    r: CreateEnvironmentRequest,
    f: FileEntry,
    e: EgressAllowlistEntry,
    p: ProxyAllowlistEntry,
)
    ensures
        r@.session_id == r.session_id@,
        r@.image == r.image@,
        r@.vcpus == r.vcpus,
        r@.memory_mib == r.memory_mib,
        r@.timeout_secs == r.timeout_secs,
        r@.files.len() == r.files@.len(),
        forall|i: int| 0 <= i < r.files@.len() ==> r@.files[i] == (#[trigger] r.files@[i])@,
        r@.allowlist.len() == r.egress.allowlist@.len(),
        forall|i: int|
            0 <= i < r.egress.allowlist@.len() ==> r@.allowlist[i] == (
            #[trigger] r.egress.allowlist@[i])@,
        f@.guest_path == f.guest_path@,
        f@.source == f.source@,
        f.content is Some <==> f@.content is Some,
        f.content matches Some(t) ==> f@.content == Some(t@),
        f.url is Some <==> f@.url is Some,
        f.url matches Some(t) ==> f@.url == Some(t@),
        f.git_ref is Some <==> f@.git_ref is Some,
        f.git_ref matches Some(t) ==> f@.git_ref == Some(t@),
        f.path is Some <==> f@.path is Some,
        f.path matches Some(t) ==> f@.path == Some(t@),
        e@.domain == e.domain@,
        e@.inject_key == e.inject_key,
        e.credential_ref is Some <==> e@.credential_ref is Some,
        e.credential_ref matches Some(t) ==> e@.credential_ref == Some(t@),
        p@.domain == p.domain@,
        p@.mode == p.mode@,
        p.credential_ref is Some <==> p@.credential_ref is Some,
        p.credential_ref matches Some(t) ==> p@.credential_ref == Some(t@),
{
}

/// What a client is told of an environment is seen with all that it holds.
pub proof fn law_environment_is_seen_whole(
    n: EnvironmentResponse,
    s: EnvironmentStatusResponse,
    l: EnvironmentSummary,
    d: DeleteResponse,
)
    ensures
        n@.session_id == n.session_id@,
        n@.status == n.status@,
        n@.vm_ip == n.vm_ip@,
        n@.tap_interface == n.tap_interface@,
        n@.proxy_id == n.proxy_session.id@,
        n@.proxy_url == n.proxy_session.proxy_url@,
        forall|k: Seq<char>|
            (#[trigger] n@.dummy_keys.dom().contains(k) <==> n.dummy_keys@.dom().contains(k)) && (
            n.dummy_keys@.dom().contains(k) ==> n@.dummy_keys[k] == n.dummy_keys@[k]@),
        n@.serial_output_url == n.serial_output_url@,
        n@.started_at == n.started_at@,
        n.expires_at is Some <==> n@.expires_at is Some,
        n.expires_at matches Some(t) ==> n@.expires_at == Some(t@),
        s@.session_id == s.session_id@,
        s@.status == s.status@,
        s@.vm_ip == s.vm_ip@,
        s@.tap_interface == s.tap_interface@,
        s@.proxy_session_id == s.proxy_session_id@,
        s@.started_at == s.started_at@,
        s.expires_at is Some <==> s@.expires_at is Some,
        s.expires_at matches Some(t) ==> s@.expires_at == Some(t@),
        s@.uptime_secs == s.uptime_secs,
        l@.session_id == l.session_id@,
        l@.status == l.status@,
        l@.vm_ip == l.vm_ip@,
        l@.started_at == l.started_at@,
        l@.uptime_secs == l.uptime_secs,
        d@.session_id == d.session_id@,
        d@.status == d.status@,
{
}

} // verus!
