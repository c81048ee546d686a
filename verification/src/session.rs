//! Sessions: which virtual machine may reach which hosts, and under which keys.

use vstd::prelude::*;

use crate::clock;
use crate::strmap::{self, StrMap};
use crate::text;

pub mod store;

verus! {

// ---------------------------------------------------------------------------
// Errors
// ---------------------------------------------------------------------------

/// Why an operation on sessions failed.
#[derive(Debug)]
pub enum SessionError {
    /// The database failed.
    Sqlite(String),
    /// A record could not be written as JSON.
    Json(String),
    /// The session id, or the source address, is taken.
    AlreadyExists(String),
    /// There is no such session.
    NotFound(String),
    /// The record is not that of a session.
    Invalid(String),
}

/// The text of an error.
pub open spec fn session_error_text(e: SessionError) -> Seq<char> {
    match e {
        SessionError::Sqlite(m) => "sqlite: "@ + m@,
        SessionError::Json(m) => "json: "@ + m@,
        SessionError::AlreadyExists(m) => "session already exists: "@ + m@,
        SessionError::NotFound(m) => "session not found: "@ + m@,
        SessionError::Invalid(m) => "invalid session data: "@ + m@,
    }
}

impl SessionError {
    /// The text of the error.
    pub fn message(&self) -> (s: String)
        ensures
            s@ == session_error_text(*self),
    {
        match self {
            SessionError::Sqlite(m) => text::prefixed("sqlite: ", m.as_str()),
            SessionError::Json(m) => text::prefixed("json: ", m.as_str()),
            SessionError::AlreadyExists(m) => text::prefixed("session already exists: ", m.as_str()),
            SessionError::NotFound(m) => text::prefixed("session not found: ", m.as_str()),
            SessionError::Invalid(m) => text::prefixed("invalid session data: ", m.as_str()),
        }
    }
}

// ---------------------------------------------------------------------------
// Sessions
// ---------------------------------------------------------------------------

/// A host that a session may reach.
#[derive(Debug, PartialEq)]
pub struct AllowlistEntry {
    /// The host name.
    pub domain: String,
    /// `mitm`, where the proxy puts in a key, or `tunnel`, where it hands bytes on.
    pub mode: String,
    /// Where the key is kept.
    pub credential_ref: Option<String>,
}

/// The texts of an allowlist entry.
pub struct EntryView {
    /// The host name.
    pub domain: Seq<char>,
    /// How the proxy treats a connection to it.
    pub mode: Seq<char>,
    /// Where the key is kept.
    pub credential_ref: Option<Seq<char>>,
}

impl View for AllowlistEntry {
    type V = EntryView;

    open spec fn view(&self) -> EntryView {
        EntryView {
            domain: self.domain@,
            mode: self.mode@,
            credential_ref: text::opt_view(self.credential_ref),
        }
    }
}

impl Clone for AllowlistEntry {
    fn clone(&self) -> (r: AllowlistEntry)
        ensures
            r@ == self@,
    {
        AllowlistEntry {
            domain: self.domain.clone(),
            mode: self.mode.clone(),
            credential_ref: text::copy_opt(&self.credential_ref),
        }
    }
}

/// The views of a run of allowlist entries.
pub open spec fn entry_views(entries: Seq<AllowlistEntry>) -> Seq<EntryView> {
    Seq::new(entries.len(), |i: int| entries[i]@)
}

/// A copy of an allowlist.
pub fn copy_entries(entries: &Vec<AllowlistEntry>) -> (r: Vec<AllowlistEntry>)
    ensures
        entry_views(r@) == entry_views(entries@),
{
    let mut r: Vec<AllowlistEntry> = Vec::new();
    let mut i: usize = 0;
    while i < entries.len()
        invariant
            i <= entries@.len(),
            r@.len() == i,
            forall|j: int| 0 <= j < i ==> (#[trigger] r@[j])@ == entries@[j]@,
        decreases entries@.len() - i,
    {
        r.push(entries[i].clone());
        i = i + 1;
    }
    proof {
        assert(entry_views(r@) =~= entry_views(entries@));
    }
    r
}

/// What the proxy knows of a virtual machine.
#[derive(Debug)]
pub struct Session {
    /// The name of the session.
    pub session_id: String,
    /// The address that the machine's traffic comes from.
    pub source_ip: String,
    /// The hosts that it may reach.
    pub allowlist: Vec<AllowlistEntry>,
    /// When the session was made, in Unix seconds.
    pub created_at: u64,
    /// When it ends, in Unix seconds; without it, never.
    pub expires_at: Option<u64>,
    /// The key that the proxy puts in. It is held in memory only.
    pub api_key: Option<String>,
}

/// The texts and times of a session.
pub struct SessionView {
    /// The name of the session.
    pub session_id: Seq<char>,
    /// The address that the machine's traffic comes from.
    pub source_ip: Seq<char>,
    /// The hosts that it may reach.
    pub allowlist: Seq<EntryView>,
    /// When the session was made.
    pub created_at: u64,
    /// When it ends.
    pub expires_at: Option<u64>,
    /// The key that the proxy puts in.
    pub api_key: Option<Seq<char>>,
}

impl View for Session {
    type V = SessionView;

    open spec fn view(&self) -> SessionView {
        SessionView {
            session_id: self.session_id@,
            source_ip: self.source_ip@,
            allowlist: entry_views(self.allowlist@),
            created_at: self.created_at,
            expires_at: self.expires_at,
            api_key: text::opt_view(self.api_key),
        }
    }
}

impl Clone for Session {
    fn clone(&self) -> (r: Session)
        ensures
            r@ == self@,
    {
        Session {
            session_id: self.session_id.clone(),
            source_ip: self.source_ip.clone(),
            allowlist: copy_entries(&self.allowlist),
            created_at: self.created_at,
            expires_at: self.expires_at,
            api_key: text::copy_opt(&self.api_key),
        }
    }
}

/// A request for a new session.
#[derive(Debug)]
pub struct CreateSessionRequest {
    /// The name of the session.
    pub session_id: String,
    /// The address that the machine's traffic comes from.
    pub source_ip: String,
    /// The hosts that it may reach.
    pub allowlist: Vec<AllowlistEntry>,
    /// When it ends, as an ISO 8601 text.
    pub expires_at: Option<String>,
}

/// What a session has sent and received so far.
#[derive(Clone, Copy, Debug, PartialEq, Eq, Structural)]
pub struct SessionStats {
    /// All requests.
    pub requests_total: u64,
    /// Those into which a key was put.
    pub requests_mitm: u64,
    /// Those that were handed on as bytes.
    pub requests_tunnel: u64,
    /// Those that were refused.
    pub requests_dropped: u64,
    /// Bytes from the machine.
    pub bytes_upstream: u64,
    /// Bytes to the machine.
    pub bytes_downstream: u64,
}

impl Default for SessionStats {
    fn default() -> (r: SessionStats)
        ensures
            r == no_stats(),
    {
        SessionStats {
            requests_total: 0,
            requests_mitm: 0,
            requests_tunnel: 0,
            requests_dropped: 0,
            bytes_upstream: 0,
            bytes_downstream: 0,
        }
    }
}

/// The statistics of a session that has sent nothing.
pub open spec fn no_stats() -> SessionStats {
    SessionStats {
        requests_total: 0,
        requests_mitm: 0,
        requests_tunnel: 0,
        requests_dropped: 0,
        bytes_upstream: 0,
        bytes_downstream: 0,
    }
}

// ---------------------------------------------------------------------------
// What is told of a session
// ---------------------------------------------------------------------------

/// A session as it is told to a client. Of its keys, only the dummy keys are.
pub struct SessionResponse {
    /// The name of the session.
    pub session_id: String,
    /// The address that the machine's traffic comes from.
    pub source_ip: String,
    /// The hosts that it may reach.
    pub allowlist: Vec<AllowlistEntry>,
    /// When the session was made, as an ISO 8601 text.
    pub created_at: String,
    /// When it ends, as an ISO 8601 text.
    pub expires_at: Option<String>,
    /// What it has sent and received, where that is known.
    pub stats: Option<SessionStats>,
    /// The dummy key of each credential, where there are any.
    pub dummy_keys: Option<StrMap<String>>,
}

/// The texts of a session response.
pub struct SessionResponseView {
    /// The name of the session.
    pub session_id: Seq<char>,
    /// The address that the machine's traffic comes from.
    pub source_ip: Seq<char>,
    /// The hosts that it may reach.
    pub allowlist: Seq<EntryView>,
    /// When the session was made.
    pub created_at: Seq<char>,
    /// When it ends.
    pub expires_at: Option<Seq<char>>,
    /// What it has sent and received.
    pub stats: Option<SessionStats>,
    /// The dummy key of each credential.
    pub dummy_keys: Option<Map<Seq<char>, Seq<char>>>,
}

/// The texts of an optional map of texts.
pub open spec fn opt_text_map(m: Option<StrMap<String>>) -> Option<Map<Seq<char>, Seq<char>>> {
    match m {
        Some(n) => Some(strmap::text_map(n@)),
        None => None,
    }
}

impl View for SessionResponse {
    type V = SessionResponseView;

    open spec fn view(&self) -> SessionResponseView {
        SessionResponseView {
            session_id: self.session_id@,
            source_ip: self.source_ip@,
            allowlist: entry_views(self.allowlist@),
            created_at: self.created_at@,
            expires_at: text::opt_view(self.expires_at),
            stats: self.stats,
            dummy_keys: opt_text_map(self.dummy_keys),
        }
    }
}

/// A session as it is told to a client.
pub open spec fn told(s: SessionView) -> SessionResponseView {
    SessionResponseView {
        session_id: s.session_id,
        source_ip: s.source_ip,
        allowlist: s.allowlist,
        created_at: clock::iso8601_or_empty(s.created_at),
        expires_at: clock::optional_iso8601(s.expires_at),
        stats: None,
        dummy_keys: None,
    }
}

impl SessionResponse {
    /// A session as it is told to a client.
    pub fn from_session(s: &Session) -> (r: SessionResponse)
        ensures
            r@ == told(s@),
            r.session_id@ == s.session_id@,
            r.source_ip@ == s.source_ip@,
            entry_views(r.allowlist@) == entry_views(s.allowlist@),
    {
        SessionResponse {
            session_id: s.session_id.clone(),
            source_ip: s.source_ip.clone(),
            allowlist: copy_entries(&s.allowlist),
            created_at: clock::format_or_empty(s.created_at),
            expires_at: clock::format_optional(s.expires_at),
            stats: None,
            dummy_keys: None,
        }
    }
}

/// One line of a list of sessions.
#[derive(Debug)]
pub struct SessionSummary {
    /// The name of the session.
    pub session_id: String,
    /// The address that the machine's traffic comes from.
    pub source_ip: String,
    /// When the session was made, as an ISO 8601 text.
    pub created_at: String,
    /// When it ends, as an ISO 8601 text.
    pub expires_at: Option<String>,
}

/// The texts of a session summary.
pub struct SessionSummaryView {
    /// The name of the session.
    pub session_id: Seq<char>,
    /// The address that the machine's traffic comes from.
    pub source_ip: Seq<char>,
    /// When the session was made.
    pub created_at: Seq<char>,
    /// When it ends.
    pub expires_at: Option<Seq<char>>,
}

impl View for SessionSummary {
    type V = SessionSummaryView;

    open spec fn view(&self) -> SessionSummaryView {
        SessionSummaryView {
            session_id: self.session_id@,
            source_ip: self.source_ip@,
            created_at: self.created_at@,
            expires_at: text::opt_view(self.expires_at),
        }
    }
}

/// A session in one line.
pub open spec fn summed_up(s: SessionView) -> SessionSummaryView {
    SessionSummaryView {
        session_id: s.session_id,
        source_ip: s.source_ip,
        created_at: clock::iso8601_or_empty(s.created_at),
        expires_at: clock::optional_iso8601(s.expires_at),
    }
}

impl SessionSummary {
    /// A session in one line.
    pub fn from_session(s: &Session) -> (r: SessionSummary)
        ensures
            r@ == summed_up(s@),
            r.session_id@ == s.session_id@,
            r.source_ip@ == s.source_ip@,
    {
        SessionSummary {
            session_id: s.session_id.clone(),
            source_ip: s.source_ip.clone(),
            created_at: clock::format_or_empty(s.created_at),
            expires_at: clock::format_optional(s.expires_at),
        }
    }
}

/// A list of sessions.
#[derive(Debug)]
pub struct SessionListResponse {
    /// One line for each session.
    pub sessions: Vec<SessionSummary>,
}

/// The views of a run of session summaries.
pub open spec fn summary_views(s: Seq<SessionSummary>) -> Seq<SessionSummaryView> {
    Seq::new(s.len(), |i: int| s[i]@)
}

/// The key of a session is told to nobody: neither what is told of the session nor its
/// line in a list depends on it.
pub proof fn law_key_is_not_told(s: SessionView, key: Option<Seq<char>>)
    ensures
        told(SessionView { api_key: key, ..s }) == told(s),
        summed_up(SessionView { api_key: key, ..s }) == summed_up(s),
{
}

/// What is told of a session is the session's own: its name, its address, the hosts that it
/// may reach, and when it was made and ends.
pub proof fn law_told_session_is_the_session(s: SessionView)
    ensures
        told(s).session_id == s.session_id,
        told(s).source_ip == s.source_ip,
        told(s).allowlist == s.allowlist,
        told(s).created_at == clock::iso8601_or_empty(s.created_at),
        told(s).expires_at == clock::optional_iso8601(s.expires_at),
        told(s).stats is None,
        told(s).dummy_keys is None,
        summed_up(s).session_id == s.session_id,
        summed_up(s).source_ip == s.source_ip,
        summed_up(s).created_at == told(s).created_at,
        summed_up(s).expires_at == told(s).expires_at,
{
}

/// A session, and an entry of its list, are seen with all that they hold.
pub proof fn law_session_is_seen_whole(s: Session, e: AllowlistEntry)
    ensures
        s@.session_id == s.session_id@,
        s@.source_ip == s.source_ip@,
        s@.allowlist.len() == s.allowlist@.len(),
        forall|i: int| 0 <= i < s.allowlist@.len() ==> s@.allowlist[i] == (#[trigger] s.allowlist@[i])@,
        s@.created_at == s.created_at,
        s@.expires_at == s.expires_at,
        s.api_key is Some <==> s@.api_key is Some,
        s.api_key matches Some(k) ==> s@.api_key == Some(k@),
        e@.domain == e.domain@,
        e@.mode == e.mode@,
        e.credential_ref is Some <==> e@.credential_ref is Some,
        e.credential_ref matches Some(r) ==> e@.credential_ref == Some(r@),
{
}

/// What a client is told of a session, and its line in a list, are seen with all that they
/// hold.
pub proof fn law_response_is_seen_whole(r: SessionResponse, l: SessionSummary)
    ensures
        r@.session_id == r.session_id@,
        r@.source_ip == r.source_ip@,
        r@.allowlist.len() == r.allowlist@.len(),
        forall|i: int| 0 <= i < r.allowlist@.len() ==> r@.allowlist[i] == (#[trigger] r.allowlist@[i])@,
        r@.created_at == r.created_at@,
        r.expires_at is Some <==> r@.expires_at is Some,
        r.expires_at matches Some(t) ==> r@.expires_at == Some(t@),
        r@.stats == r.stats,
        r.dummy_keys is Some <==> r@.dummy_keys is Some,
        r.dummy_keys matches Some(m) ==> forall|k: Seq<char>|
            (#[trigger] r@.dummy_keys->0.dom().contains(k) <==> m@.dom().contains(k)) && (
            m@.dom().contains(k) ==> r@.dummy_keys->0[k] == m@[k]@),
        l@.session_id == l.session_id@,
        l@.source_ip == l.source_ip@,
        l@.created_at == l.created_at@,
        l.expires_at is Some <==> l@.expires_at is Some,
        l.expires_at matches Some(t) ==> l@.expires_at == Some(t@),
{
}

/// The text of an error says what kind it is of, and then what it is about.
pub proof fn law_error_says_what_and_why(e: SessionError)
    ensures
        e matches SessionError::Sqlite(m) ==> session_error_text(e) == "sqlite: "@ + m@,
        e matches SessionError::Json(m) ==> session_error_text(e) == "json: "@ + m@,
        e matches SessionError::AlreadyExists(m) ==> session_error_text(e) == "session already exists: "@ + m@,
        e matches SessionError::NotFound(m) ==> session_error_text(e) == "session not found: "@ + m@,
        e matches SessionError::Invalid(m) ==> session_error_text(e) == "invalid session data: "@ + m@,
{
}

} // verus!
