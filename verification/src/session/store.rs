//! The sessions that are active, and what is held of each in memory only.
//!
//! A session is looked up by the address that its traffic comes from. Sessions are
//! kept in a database as well, from which they are loaded again after a restart:
//! this module says what is written there and what is made of what is read back.
//! Keys are never written.

use vstd::prelude::*;

use super::{copy_entries, AllowlistEntry, EntryView, Session, SessionError, SessionStats, SessionView};
use crate::clock;
use crate::strmap::{self, StrMap};
use crate::text;

verus! {

/// The sessions by source address, and what is held of each by session id.
pub struct StoreView {
    /// The sessions, by source address.
    pub sessions: Map<Seq<char>, SessionView>,
    /// What they have sent and received, by session id.
    pub stats: Map<Seq<char>, SessionStats>,
    /// The real key of each of their dummy keys, by session id.
    pub key_maps: Map<Seq<char>, Map<Seq<char>, Seq<char>>>,
}

/// Whether each session is found under its own address, and no two sessions have
/// the same id.
pub open spec fn sessions_ok(m: Map<Seq<char>, SessionView>) -> bool {
    &&& forall|ip: Seq<char>| #[trigger] m.dom().contains(ip) ==> m[ip].source_ip == ip
    &&& forall|a: Seq<char>, b: Seq<char>| #[trigger]
        m.dom().contains(a) && #[trigger] m.dom().contains(b) && m[a].session_id
            == m[b].session_id ==> a == b
}

/// Whether the sessions are sound, and keys are held only for sessions that are there.
pub open spec fn store_ok(v: StoreView) -> bool {
    &&& sessions_ok(v.sessions)
    &&& forall|id: Seq<char>| #[trigger]
        v.key_maps.dom().contains(id) ==> id_known(v.sessions, id)
}

/// Whether the session at address `ip` has that id.
pub open spec fn has_id(m: Map<Seq<char>, SessionView>, ip: Seq<char>, id: Seq<char>) -> bool {
    m.dom().contains(ip) && m[ip].session_id == id
}

/// Whether some session has that id.
pub open spec fn id_known(m: Map<Seq<char>, SessionView>, id: Seq<char>) -> bool {
    exists|ip: Seq<char>| has_id(m, ip, id)
}

/// The address of the session with that id.
pub open spec fn address_of(m: Map<Seq<char>, SessionView>, id: Seq<char>) -> Seq<char> {
    choose|ip: Seq<char>| has_id(m, ip, id)
}

/// The session without its key: what is kept of it when it is made.
pub open spec fn keyless(s: SessionView) -> SessionView {
    SessionView { api_key: None, ..s }
}

/// The views of a map of sessions.
pub open spec fn session_views(m: Map<Seq<char>, Session>) -> Map<Seq<char>, SessionView> {
    Map::new(|k: Seq<char>| m.dom().contains(k), |k: Seq<char>| m[k]@)
}

/// The texts of a map of key maps.
pub open spec fn key_map_views(m: Map<Seq<char>, StrMap<String>>) -> Map<
    Seq<char>,
    Map<Seq<char>, Seq<char>>,
> {
    Map::new(|k: Seq<char>| m.dom().contains(k), |k: Seq<char>| strmap::text_map(m[k]@))
}

// ---------------------------------------------------------------------------
// The database
// ---------------------------------------------------------------------------

/// A session as the database keeps it.
#[derive(Debug)]
pub struct SessionRow {
    /// The name of the session.
    pub session_id: String,
    /// The address that the machine's traffic comes from.
    pub source_ip: String,
    /// The hosts that it may reach; none where the record of them is not readable.
    pub allowlist: Option<Vec<AllowlistEntry>>,
    /// When the session was made.
    pub created_at: i64,
    /// When it ends.
    pub expires_at: Option<i64>,
}

/// The fields of a row.
pub struct RowView {
    /// The name of the session.
    pub session_id: Seq<char>,
    /// The address that the machine's traffic comes from.
    pub source_ip: Seq<char>,
    /// The hosts that it may reach.
    pub allowlist: Option<Seq<EntryView>>,
    /// When the session was made.
    pub created_at: i64,
    /// When it ends.
    pub expires_at: Option<i64>,
}

impl View for SessionRow {
    type V = RowView;

    open spec fn view(&self) -> RowView {
        RowView {
            session_id: self.session_id@,
            source_ip: self.source_ip@,
            allowlist: match self.allowlist {
                Some(l) => Some(super::entry_views(l@)),
                None => None,
            },
            created_at: self.created_at,
            expires_at: self.expires_at,
        }
    }
}

/// The row that is written for a session.
pub open spec fn row_of(s: SessionView) -> RowView {
    RowView {
        session_id: s.session_id,
        source_ip: s.source_ip,
        allowlist: Some(s.allowlist),
        created_at: clock::signed(s.created_at) as i64,
        expires_at: match s.expires_at {
            Some(t) => Some(clock::signed(t) as i64),
            None => None,
        },
    }
}

/// The session that a row is read as. It has no key, and may reach no host where
/// the record of its hosts is not readable.
pub open spec fn session_of(row: RowView) -> SessionView {
    SessionView {
        session_id: row.session_id,
        source_ip: row.source_ip,
        allowlist: match row.allowlist {
            Some(l) => l,
            None => Seq::empty(),
        },
        created_at: clock::unsigned(row.created_at) as u64,
        expires_at: match row.expires_at {
            Some(t) => Some(clock::unsigned(t) as u64),
            None => None,
        },
        api_key: None,
    }
}

/// Whether a row has ended before `now`.
pub open spec fn row_ended(row: RowView, now: u64) -> bool {
    row.expires_at matches Some(t) && t < clock::signed(now)
}

/// Whether a session has ended before `now`.
pub open spec fn session_ended(s: SessionView, now: u64) -> bool {
    s.expires_at matches Some(t) && clock::signed(t) < clock::signed(now)
}

/// What is loaded from the database: each row that has not ended, unless its id or
/// its address was met before.
pub open spec fn loaded(rows: Seq<RowView>, now: u64) -> Map<Seq<char>, SessionView>
    decreases rows.len(),
{
    if rows.len() == 0 {
        Map::empty()
    } else {
        let m = loaded(rows.drop_last(), now);
        let row = rows.last();
        if row_ended(row, now) || id_known(m, row.session_id) || m.dom().contains(row.source_ip) {
            m
        } else {
            m.insert(row.source_ip, session_of(row))
        }
    }
}

/// The views of a run of rows.
pub open spec fn row_views(rows: Seq<SessionRow>) -> Seq<RowView> {
    Seq::new(rows.len(), |i: int| rows[i]@)
}

/// The ids of the rows that have ended, in order.
pub open spec fn ended_ids(rows: Seq<RowView>, now: u64) -> Seq<Seq<char>>
    decreases rows.len(),
{
    if rows.len() == 0 {
        Seq::empty()
    } else if row_ended(rows.last(), now) {
        ended_ids(rows.drop_last(), now).push(rows.last().session_id)
    } else {
        ended_ids(rows.drop_last(), now)
    }
}

impl SessionRow {
    /// The row that is written for a session.
    pub fn of_session(s: &Session) -> (row: SessionRow)
        ensures
            row@ == row_of(s@),
    {
        SessionRow {
            session_id: s.session_id.clone(),
            source_ip: s.source_ip.clone(),
            allowlist: Some(copy_entries(&s.allowlist)),
            created_at: clock::to_signed(s.created_at),
            expires_at: match s.expires_at {
                Some(t) => Some(clock::to_signed(t)),
                None => None,
            },
        }
    }

    /// The session that the row is read as.
    pub fn to_session(&self) -> (s: Session)
        ensures
            s@ == session_of(self@),
    {
        let allowlist = match &self.allowlist {
            Some(l) => copy_entries(l),
            None => {
                let l: Vec<AllowlistEntry> = Vec::new();
                proof {
                    assert(super::entry_views(l@) =~= Seq::empty());
                }
                l
            },
        };
        Session {
            session_id: self.session_id.clone(),
            source_ip: self.source_ip.clone(),
            allowlist,
            created_at: clock::to_unsigned(self.created_at),
            expires_at: match self.expires_at {
                Some(t) => Some(clock::to_unsigned(t)),
                None => None,
            },
            api_key: None,
        }
    }

    /// Whether the session of the row has ended before `now`.
    pub fn has_ended(&self, now: u64) -> (r: bool)
        ensures
            r == row_ended(self@, now),
    {
        match self.expires_at {
            Some(t) => t < clock::to_signed(now),
            None => false,
        }
    }
}

// ---------------------------------------------------------------------------
// The store
// ---------------------------------------------------------------------------

/// The sessions that are active.
pub struct SessionStore {
    sessions: StrMap<Session>,
    stats: StrMap<SessionStats>,
    key_maps: StrMap<StrMap<String>>,
}

impl View for SessionStore {
    type V = StoreView;

    closed spec fn view(&self) -> StoreView {
        StoreView {
            sessions: session_views(self.sessions@),
            stats: self.stats@,
            key_maps: key_map_views(self.key_maps@),
        }
    }
}

impl SessionStore {
    #[verifier::type_invariant]
    spec fn inv(self) -> bool {
        store_ok(self@)
    }

    /// The addresses of the sessions, each once.
    pub closed spec fn order(self) -> Seq<Seq<char>> {
        self.sessions.order()
    }

    /// A store without sessions.
    pub fn in_memory() -> (r: Result<SessionStore, SessionError>)
        ensures
            r matches Ok(store) && store@.sessions == Map::<Seq<char>, SessionView>::empty()
                && store@.stats == Map::<Seq<char>, SessionStats>::empty() && store@.key_maps
                == Map::<Seq<char>, Map<Seq<char>, Seq<char>>>::empty(),
    {
        Ok(SessionStore::empty())
    }

    fn empty() -> (store: SessionStore)
        ensures
            store@.sessions == Map::<Seq<char>, SessionView>::empty(),
            store@.stats == Map::<Seq<char>, SessionStats>::empty(),
            store@.key_maps == Map::<Seq<char>, Map<Seq<char>, Seq<char>>>::empty(),
            store.order() == Seq::<Seq<char>>::empty(),
    {
        let sessions: StrMap<Session> = StrMap::new();
        let stats: StrMap<SessionStats> = StrMap::new();
        let key_maps: StrMap<StrMap<String>> = StrMap::new();
        proof {
            assert(session_views(sessions@) =~= Map::empty());
            assert(key_map_views(key_maps@) =~= Map::empty());
        }
        SessionStore { sessions, stats, key_maps }
    }

    fn find_id(&self, id: &str) -> (r: Option<usize>)
        ensures
            match r {
                Some(i) => i < self.sessions.order().len() && has_id(
                    self@.sessions,
                    self.sessions.order()[i as int],
                    id@,
                ) && self.sessions.order()[i as int] == address_of(self@.sessions, id@),
                None => !id_known(self@.sessions, id@),
            },
    {
        let ghost m = self@.sessions;
        let want = text::chars_of(id);
        let n: usize = self.sessions.len();
        let mut i: usize = 0;
        while i < n
            invariant
                m == self@.sessions,
                n == self.sessions.order().len(),
                self.sessions@.dom() == self.sessions.order().to_set(),
                want@ == id@,
                i <= n,
                forall|j: int|
                    0 <= j < i ==> !has_id(m, #[trigger] self.sessions.order()[j], id@),
            decreases n - i,
        {
            let e = self.sessions.at(i);
            let have = text::chars_of(e.1.session_id.as_str());
            if text::same_chars(have.as_slice(), want.as_slice()) {
                proof {
                    use_type_invariant(self);
                    let ip = address_of(m, id@);
                    assert(has_id(m, e.0@, id@));
                    assert(has_id(m, ip, id@));
                    assert(m.dom().contains(ip) && m.dom().contains(e.0@));
                }
                return Some(i);
            }
            i = i + 1;
        }
        proof {
            if id_known(m, id@) {
                let ip = address_of(m, id@);
                assert(has_id(m, ip, id@));
                assert(self.sessions@.dom().contains(ip));
                assert(self.sessions.order().to_set().contains(ip));
                let j = self.sessions.order().index_of(ip);
                assert(!has_id(m, self.sessions.order()[j], id@));
            }
        }
        None
    }

    /// Whether a session with that id can be made: the row to write for it, or which
    /// of its id and its address is taken. `id_stored` and `ip_stored` say whether
    /// the database has the id and the address.
    pub fn check_new(&self, session: &Session, id_stored: bool, ip_stored: bool) -> (r: Result<
        SessionRow,
        SessionError,
    >)
        ensures
            ({
                let id_taken = id_stored || id_known(self@.sessions, session.session_id@);
                let ip_taken = ip_stored || self@.sessions.dom().contains(session.source_ip@);
                match r {
                    Ok(row) => !id_taken && !ip_taken && row@ == row_of(session@),
                    Err(SessionError::AlreadyExists(what)) => {
                        ||| id_taken && what@ == session.session_id@
                        ||| !id_taken && ip_taken && what@ == session.source_ip@
                    },
                    Err(_) => false,
                }
            }),
    {
        if id_stored || self.find_id(session.session_id.as_str()).is_some() {
            return Err(SessionError::AlreadyExists(session.session_id.clone()));
        }
        if ip_stored || self.sessions.contains_key(session.source_ip.as_str()) {
            return Err(SessionError::AlreadyExists(session.source_ip.clone()));
        }
        Ok(SessionRow::of_session(session))
    }

    /// Takes in a new session once the database has answered: without its key where
    /// the row was written, not at all where that failed.
    pub fn finish_create(&mut self, session: Session, written: Result<(), String>) -> (r: Result<
        (),
        SessionError,
    >)
        requires
            !id_known(old(self)@.sessions, session.session_id@),
            !old(self)@.sessions.dom().contains(session.source_ip@),
        ensures
            match (r, written) {
                (Ok(_), Ok(_)) => final(self)@ == (StoreView {
                    sessions: old(self)@.sessions.insert(session.source_ip@, keyless(session@)),
                    ..old(self)@
                }) && final(self).order() == old(self).order().push(session.source_ip@),
                (Err(SessionError::Sqlite(m)), Err(e)) => m@ == e@ && final(self)@ == old(self)@
                    && final(self).order() == old(self).order(),
                _ => false,
            },
            store_ok(final(self)@),
    {
        proof {
            use_type_invariant(&*self);
        }
        match written {
            Err(e) => {
                return Err(SessionError::Sqlite(e));
            },
            Ok(()) => {},
        }
        let mut session = session;
        session.api_key = None;
        let ghost before = self.sessions@;
        let ghost new = session;
        let key = session.source_ip.clone();
        proof {
            let want = session_views(before).insert(new.source_ip@, new@);
            assert(session_views(before.insert(new.source_ip@, new)) =~= want);
            assert forall|ip: Seq<char>| has_id(session_views(before), ip, new.session_id@) implies false by {
                assert(id_known(session_views(before), new.session_id@));
            }
            assert(sessions_ok(want)) by {
                assert forall|a: Seq<char>, b: Seq<char>| #[trigger]
                    want.dom().contains(a) && #[trigger] want.dom().contains(b)
                        && want[a].session_id == want[b].session_id implies a == b by {
                    assert(!has_id(session_views(before), a, new.session_id@));
                    assert(!has_id(session_views(before), b, new.session_id@));
                    if a != new.source_ip@ {
                        assert(session_views(before).dom().contains(a));
                    }
                    if b != new.source_ip@ {
                        assert(session_views(before).dom().contains(b));
                    }
                }
                assert forall|ip: Seq<char>| #[trigger]
                    want.dom().contains(ip) implies want[ip].source_ip == ip by {
                    if ip != new.source_ip@ {
                        assert(session_views(before).dom().contains(ip));
                    }
                }
            }
        }
        let mut taken = SessionStore::empty();
        std::mem::swap(&mut taken, self);
        let SessionStore { mut sessions, stats, key_maps } = taken;
        sessions.insert(key, session);
        proof {
            lemma_ids_stay(session_views(before), new@);
        }
        *self = SessionStore { sessions, stats, key_maps };
        Ok(())
    }

    /// Makes a session. Its key is not kept.
    pub fn create(&mut self, session: Session) -> (r: Result<(), SessionError>)
        ensures
            ({
                let id_taken = id_known(old(self)@.sessions, session.session_id@);
                let ip_taken = old(self)@.sessions.dom().contains(session.source_ip@);
                match r {
                    Ok(_) => !id_taken && !ip_taken && final(self)@ == (StoreView {
                        sessions: old(self)@.sessions.insert(session.source_ip@, keyless(session@)),
                        ..old(self)@
                    }),
                    Err(SessionError::AlreadyExists(what)) => final(self)@ == old(self)@ && {
                        ||| id_taken && what@ == session.session_id@
                        ||| !id_taken && ip_taken && what@ == session.source_ip@
                    },
                    Err(_) => false,
                }
            }),
            store_ok(final(self)@),
    {
        proof {
            use_type_invariant(&*self);
        }
        match self.check_new(&session, false, false) {
            Ok(_) => self.finish_create(session, Ok(())),
            Err(e) => Err(e),
        }
    }

    /// The session with that id.
    pub fn get(&self, session_id: &str) -> (r: Option<Session>)
        ensures
            match r {
                Some(s) => id_known(self@.sessions, session_id@) && s@ == self@.sessions[address_of(
                    self@.sessions,
                    session_id@,
                )] && s.session_id@ == session_id@,
                None => !id_known(self@.sessions, session_id@),
            },
    {
        match self.find_id(session_id) {
            Some(i) => {
                let e = self.sessions.at(i);
                Some(e.1.clone())
            },
            None => None,
        }
    }

    /// The session of the machine at that address.
    pub fn get_by_ip(&self, source_ip: &str) -> (r: Option<Session>)
        ensures
            match r {
                Some(s) => self@.sessions.dom().contains(source_ip@) && s@
                    == self@.sessions[source_ip@],
                None => !self@.sessions.dom().contains(source_ip@),
            },
    {
        match self.sessions.get(source_ip) {
            Some(s) => Some(s.clone()),
            None => None,
        }
    }

    /// The number of sessions.
    pub fn count(&self) -> (n: usize)
        ensures
            n == self@.sessions.len(),
            n == self.order().len(),
            self@.sessions.dom() == self.order().to_set(),
            self.order().no_duplicates(),
            self@.sessions.dom().finite(),
            store_ok(self@),
    {
        proof {
            use_type_invariant(self);
            assert(self@.sessions.dom() =~= self.sessions@.dom());
        }
        self.sessions.len()
    }

    /// All sessions, each once.
    pub fn list(&self) -> (r: Vec<Session>)
        ensures
            r@.len() == self.order().len(),
            forall|i: int|
                0 <= i < r@.len() ==> (#[trigger] r@[i])@ == self@.sessions[self.order()[i]],
            self@.sessions.dom() == self.order().to_set(),
            self.order().no_duplicates(),
    {
        let mut r: Vec<Session> = Vec::new();
        let n: usize = self.count();
        let mut i: usize = 0;
        while i < n
            invariant
                i <= n,
                n == self.order().len(),
                r@.len() == i,
                forall|j: int|
                    0 <= j < i ==> (#[trigger] r@[j])@ == self@.sessions[self.order()[j]],
            decreases n - i,
        {
            let e = self.sessions.at(i);
            r.push(e.1.clone());
            i = i + 1;
        }
        r
    }

    /// Takes out the session with that id once the database has answered. What is
    /// held of it goes with it.
    pub fn finish_delete(&mut self, session_id: &str, erased: Result<(), String>) -> (r: Result<
        bool,
        SessionError,
    >)
        ensures
            match r {
                Ok(found) => {
                    &&& found == id_known(old(self)@.sessions, session_id@)
                    &&& found ==> erased is Ok && final(self)@ == without_session(
                        old(self)@,
                        session_id@,
                    )
                    &&& !found ==> final(self)@ == old(self)@
                },
                Err(SessionError::Sqlite(m)) => {
                    &&& id_known(old(self)@.sessions, session_id@)
                    &&& erased matches Err(e) && e@ == m@
                    &&& final(self)@ == old(self)@
                },
                Err(_) => false,
            },
            store_ok(final(self)@),
    {
        proof {
            use_type_invariant(&*self);
        }
        let source_ip = match self.find_id(session_id) {
            Some(i) => self.sessions.at(i).0.clone(),
            None => {
                return Ok(false);
            },
        };
        match erased {
            Err(e) => {
                return Err(SessionError::Sqlite(e));
            },
            Ok(()) => {},
        }
        let ghost before = *self;
        let mut taken = SessionStore::empty();
        std::mem::swap(&mut taken, self);
        let SessionStore { mut sessions, mut stats, mut key_maps } = taken;
        let _ = sessions.remove(source_ip.as_str());
        let _ = stats.remove(session_id);
        let _ = key_maps.remove(session_id);
        proof {
            let m = session_views(before.sessions@);
            assert(session_views(sessions@) =~= m.remove(source_ip@));
            assert(key_map_views(key_maps@) =~= key_map_views(before.key_maps@).remove(
                session_id@,
            ));
            lemma_without_session_ok(before@, session_id@);
        }
        *self = SessionStore { sessions, stats, key_maps };
        Ok(true)
    }

    /// Takes out the session with that id, and what is held of it.
    pub fn delete(&mut self, session_id: &str) -> (r: Result<bool, SessionError>)
        ensures
            r matches Ok(found) && found == id_known(old(self)@.sessions, session_id@),
            id_known(old(self)@.sessions, session_id@) ==> final(self)@ == without_session(
                old(self)@,
                session_id@,
            ),
            !id_known(old(self)@.sessions, session_id@) ==> final(self)@ == old(self)@,
            store_ok(final(self)@),
    {
        self.finish_delete(session_id, Ok(()))
    }

    /// Whether the counters of a session have room for one more request.
    pub fn can_record(&self, session_id: &str, bytes_up: u64, bytes_down: u64) -> (r: bool)
        ensures
            r == can_count(stats_of(self@, session_id@), bytes_up, bytes_down),
    {
        let s = match self.stats.get(session_id) {
            Some(s) => *s,
            None => SessionStats::default(),
        };
        s.requests_total < u64::MAX && s.requests_mitm < u64::MAX && s.requests_tunnel < u64::MAX
            && s.requests_dropped < u64::MAX && bytes_up <= u64::MAX - s.bytes_upstream
            && bytes_down <= u64::MAX - s.bytes_downstream
    }

    /// Counts a request of a session: one of `mitm`, `tunnel` and `dropped`, or of
    /// another kind that only the total counts.
    pub fn record_stats(&mut self, session_id: &str, kind: &str, bytes_up: u64, bytes_down: u64)
        requires
            can_count(stats_of(old(self)@, session_id@), bytes_up, bytes_down),
        ensures
            final(self)@ == (StoreView {
                stats: old(self)@.stats.insert(
                    session_id@,
                    counted(stats_of(old(self)@, session_id@), kind@, bytes_up, bytes_down),
                ),
                ..old(self)@
            }),
            store_ok(final(self)@),
    {
        let mut entry = match self.stats.get(session_id) {
            Some(e) => *e,
            None => SessionStats::default(),
        };
        let ghost before = stats_of(self@, session_id@);
        assert(entry == before);
        entry.requests_total = entry.requests_total + 1;
        if text::same_str(kind, "mitm") {
            entry.requests_mitm = entry.requests_mitm + 1;
        } else if text::same_str(kind, "tunnel") {
            entry.requests_tunnel = entry.requests_tunnel + 1;
        } else if text::same_str(kind, "dropped") {
            entry.requests_dropped = entry.requests_dropped + 1;
        }
        entry.bytes_upstream = entry.bytes_upstream + bytes_up;
        entry.bytes_downstream = entry.bytes_downstream + bytes_down;
        proof {
            use_type_invariant(&*self);
            reveal_strlit("mitm");
            reveal_strlit("tunnel");
            reveal_strlit("dropped");
            assert("mitm"@.len() != "tunnel"@.len() && "mitm"@.len() != "dropped"@.len()
                && "tunnel"@.len() != "dropped"@.len());
            assert(entry == counted(before, kind@, bytes_up, bytes_down));
        }
        let mut taken = SessionStore::empty();
        std::mem::swap(&mut taken, self);
        let SessionStore { sessions, mut stats, key_maps } = taken;
        stats.insert(session_id.to_owned(), entry);
        *self = SessionStore { sessions, stats, key_maps };
    }

    /// What a session has sent and received, if anything was counted.
    pub fn get_stats(&self, session_id: &str) -> (r: Option<SessionStats>)
        ensures
            match r {
                Some(s) => self@.stats.dom().contains(session_id@) && s == self@.stats[session_id@],
                None => !self@.stats.dom().contains(session_id@),
            },
    {
        match self.stats.get(session_id) {
            Some(s) => Some(*s),
            None => None,
        }
    }

    /// Gives the session with that id a key, in memory only. Whether there is one.
    pub fn set_api_key(&mut self, session_id: &str, api_key: String) -> (r: bool)
        ensures
            r == id_known(old(self)@.sessions, session_id@),
            r ==> final(self)@ == ({
                let ip = address_of(old(self)@.sessions, session_id@);
                StoreView {
                    sessions: old(self)@.sessions.insert(
                        ip,
                        SessionView { api_key: Some(api_key@), ..old(self)@.sessions[ip] },
                    ),
                    ..old(self)@
                }
            }),
            !r ==> final(self)@ == old(self)@,
            final(self).order() == old(self).order(),
            store_ok(final(self)@),
    {
        proof {
            use_type_invariant(&*self);
        }
        let (source_ip, mut session) = match self.find_id(session_id) {
            Some(i) => {
                let e = self.sessions.at(i);
                (e.0.clone(), e.1.clone())
            },
            None => {
                return false;
            },
        };
        session.api_key = Some(api_key);
        let ghost before = self.sessions@;
        let ghost keyed = session@;
        proof {
            let m = session_views(before);
            let want = m.insert(source_ip@, session@);
            assert(session_views(before.insert(source_ip@, session)) =~= want);
            assert(sessions_ok(want)) by {
                assert forall|a: Seq<char>, b: Seq<char>| #[trigger]
                    want.dom().contains(a) && #[trigger] want.dom().contains(b)
                        && want[a].session_id == want[b].session_id implies a == b by {
                    assert(m.dom().contains(a) && m.dom().contains(b));
                    assert(m[a].session_id == m[b].session_id);
                }
                assert forall|ip: Seq<char>| #[trigger]
                    want.dom().contains(ip) implies want[ip].source_ip == ip by {
                    assert(m.dom().contains(ip));
                }
            }
        }
        let mut taken = SessionStore::empty();
        std::mem::swap(&mut taken, self);
        let SessionStore { mut sessions, stats, key_maps } = taken;
        sessions.insert(source_ip, session);
        proof {
            lemma_ids_stay(session_views(before), keyed);
        }
        *self = SessionStore { sessions, stats, key_maps };
        true
    }

    /// Gives the session with that id the real keys of its dummy keys, in memory
    /// only. Whether there is one.
    pub fn set_key_map(&mut self, session_id: &str, dummy_to_real: StrMap<String>) -> (r: bool)
        ensures
            r == id_known(old(self)@.sessions, session_id@),
            r ==> final(self)@ == (StoreView {
                key_maps: old(self)@.key_maps.insert(
                    session_id@,
                    strmap::text_map(dummy_to_real@),
                ),
                ..old(self)@
            }),
            !r ==> final(self)@ == old(self)@,
            final(self).order() == old(self).order(),
            store_ok(final(self)@),
    {
        proof {
            use_type_invariant(&*self);
        }
        if self.find_id(session_id).is_none() {
            return false;
        }
        let ghost before = self.key_maps@;
        proof {
            assert(key_map_views(before.insert(session_id@, dummy_to_real)) =~= key_map_views(
                before,
            ).insert(session_id@, strmap::text_map(dummy_to_real@)));
        }
        let mut taken = SessionStore::empty();
        std::mem::swap(&mut taken, self);
        let SessionStore { sessions, stats, mut key_maps } = taken;
        key_maps.insert(session_id.to_owned(), dummy_to_real);
        *self = SessionStore { sessions, stats, key_maps };
        true
    }

    /// The real keys of the dummy keys of a session; none where it was given none.
    pub fn key_map(&self, session_id: &str) -> (r: StrMap<String>)
        ensures
            strmap::text_map(r@) == key_map_of(self@, session_id@),
    {
        match self.key_maps.get(session_id) {
            Some(m) => m.copy(),
            None => {
                let m: StrMap<String> = StrMap::new();
                proof {
                    assert(strmap::text_map(m@) =~= Map::empty());
                }
                m
            },
        }
    }

    /// The store as it is after a restart, from what the database holds, and the ids
    /// of the rows that have ended and are to be erased there.
    pub fn open(rows: &Vec<SessionRow>, now: u64) -> (r: (SessionStore, Vec<String>))
        ensures
            r.0@.sessions == loaded(row_views(rows@), now),
            r.0@.stats == Map::<Seq<char>, SessionStats>::empty(),
            r.0@.key_maps == Map::<Seq<char>, Map<Seq<char>, Seq<char>>>::empty(),
            text::string_views(r.1@) == ended_ids(row_views(rows@), now),
    {
        let ghost all = row_views(rows@);
        let mut store = SessionStore::empty();
        let mut ended: Vec<String> = Vec::new();
        let mut i: usize = 0;
        proof {
            assert(text::string_views(ended@) =~= Seq::empty());
        }
        while i < rows.len()
            invariant
                all == row_views(rows@),
                i <= rows@.len(),
                store@.sessions == loaded(all.take(i as int), now),
                store@.stats == Map::<Seq<char>, SessionStats>::empty(),
                store@.key_maps == Map::<Seq<char>, Map<Seq<char>, Seq<char>>>::empty(),
                text::string_views(ended@) == ended_ids(all.take(i as int), now),
            decreases rows@.len() - i,
        {
            proof {
                assert(all.take(i + 1).drop_last() =~= all.take(i as int));
                assert(all.take(i + 1).last() == rows@[i as int]@);
            }
            if rows[i].has_ended(now) {
                let ghost before = ended@;
                ended.push(rows[i].session_id.clone());
                proof {
                    assert(text::string_views(ended@) =~= text::string_views(before).push(
                        rows@[i as int].session_id@,
                    ));
                }
            } else {
                let session = rows[i].to_session();
                let _ = store.create(session);
            }
            i = i + 1;
        }
        proof {
            assert(all.take(i as int) =~= all);
        }
        (store, ended)
    }
}

/// The store without the session with that id, and without what is held of it.
pub open spec fn without_session(v: StoreView, id: Seq<char>) -> StoreView {
    StoreView {
        sessions: v.sessions.remove(address_of(v.sessions, id)),
        stats: v.stats.remove(id),
        key_maps: v.key_maps.remove(id),
    }
}

/// What was counted of a session.
pub open spec fn stats_of(v: StoreView, id: Seq<char>) -> SessionStats {
    if v.stats.dom().contains(id) {
        v.stats[id]
    } else {
        super::no_stats()
    }
}

/// The real keys of the dummy keys of a session.
pub open spec fn key_map_of(v: StoreView, id: Seq<char>) -> Map<Seq<char>, Seq<char>> {
    if v.key_maps.dom().contains(id) {
        v.key_maps[id]
    } else {
        Map::empty()
    }
}

/// Whether the counters have room for one more request.
pub open spec fn can_count(s: SessionStats, up: u64, down: u64) -> bool {
    &&& s.requests_total < u64::MAX
    &&& s.requests_mitm < u64::MAX
    &&& s.requests_tunnel < u64::MAX
    &&& s.requests_dropped < u64::MAX
    &&& s.bytes_upstream + up <= u64::MAX
    &&& s.bytes_downstream + down <= u64::MAX
}

/// The counters after one more request of that kind.
pub open spec fn counted(s: SessionStats, kind: Seq<char>, up: u64, down: u64) -> SessionStats {
    SessionStats {
        requests_total: (s.requests_total + 1) as u64,
        requests_mitm: if kind == "mitm"@ {
            (s.requests_mitm + 1) as u64
        } else {
            s.requests_mitm
        },
        requests_tunnel: if kind == "tunnel"@ {
            (s.requests_tunnel + 1) as u64
        } else {
            s.requests_tunnel
        },
        requests_dropped: if kind == "dropped"@ {
            (s.requests_dropped + 1) as u64
        } else {
            s.requests_dropped
        },
        bytes_upstream: (s.bytes_upstream + up) as u64,
        bytes_downstream: (s.bytes_downstream + down) as u64,
    }
}

/// Putting a session in takes no id away, unless the session that it replaces had
/// another.
proof fn lemma_ids_stay(m: Map<Seq<char>, SessionView>, s: SessionView)
    requires
        m.dom().contains(s.source_ip) ==> m[s.source_ip].session_id == s.session_id,
    ensures
        forall|id: Seq<char>| #[trigger]
            id_known(m, id) ==> id_known(m.insert(s.source_ip, s), id),
{
    let n = m.insert(s.source_ip, s);
    assert forall|id: Seq<char>| #[trigger] id_known(m, id) implies id_known(n, id) by {
        let ip = address_of(m, id);
        assert(has_id(m, ip, id));
        assert(has_id(n, ip, id));
    }
}

proof fn lemma_without_session_ok(v: StoreView, id: Seq<char>)
    requires
        store_ok(v),
        id_known(v.sessions, id),
    ensures
        store_ok(without_session(v, id)),
{
    let m = v.sessions;
    let w = without_session(v, id);
    let ip = address_of(m, id);
    assert(has_id(m, ip, id));
    lemma_remove_ok(m, ip);
    assert forall|other: Seq<char>| #[trigger] w.key_maps.dom().contains(other) implies id_known(
        w.sessions,
        other,
    ) by {
        assert(v.key_maps.dom().contains(other));
        let a = address_of(m, other);
        assert(has_id(m, a, other));
        assert(has_id(w.sessions, a, other));
    }
}

proof fn lemma_remove_ok(m: Map<Seq<char>, SessionView>, ip: Seq<char>)
    requires
        sessions_ok(m),
    ensures
        sessions_ok(m.remove(ip)),
{
    let n = m.remove(ip);
    assert forall|a: Seq<char>| #[trigger] n.dom().contains(a) implies n[a].source_ip == a by {
        assert(m.dom().contains(a));
    }
    assert forall|a: Seq<char>, b: Seq<char>| #[trigger]
        n.dom().contains(a) && #[trigger] n.dom().contains(b) && n[a].session_id
            == n[b].session_id implies a == b by {
        assert(m.dom().contains(a) && m.dom().contains(b));
    }
}

// ---------------------------------------------------------------------------
// Ending sessions
// ---------------------------------------------------------------------------

/// The sessions that have not ended before `now`.
pub open spec fn lasting(m: Map<Seq<char>, SessionView>, now: u64) -> Map<Seq<char>, SessionView> {
    Map::new(
        |ip: Seq<char>| m.dom().contains(ip) && !session_ended(m[ip], now),
        |ip: Seq<char>| m[ip],
    )
}

/// Whether the session with that id has ended before `now`.
pub open spec fn id_ended(m: Map<Seq<char>, SessionView>, id: Seq<char>, now: u64) -> bool {
    id_known(m, id) && session_ended(m[address_of(m, id)], now)
}

/// The store without the sessions that have ended, and without all that is held for them.
pub open spec fn purged(v: StoreView, now: u64) -> StoreView {
    StoreView {
        sessions: lasting(v.sessions, now),
        stats: Map::new(
            |id: Seq<char>| v.stats.dom().contains(id) && !id_ended(v.sessions, id, now),
            |id: Seq<char>| v.stats[id],
        ),
        key_maps: Map::new(
            |id: Seq<char>| v.key_maps.dom().contains(id) && !id_ended(v.sessions, id, now),
            |id: Seq<char>| v.key_maps[id],
        ),
    }
}

spec fn without_ids(m: Map<Seq<char>, SessionView>, ids: Seq<Seq<char>>) -> Map<
    Seq<char>,
    SessionView,
> {
    Map::new(
        |ip: Seq<char>| m.dom().contains(ip) && !ids.contains(m[ip].session_id),
        |ip: Seq<char>| m[ip],
    )
}

/// A session is found under its own name at its own address.
pub proof fn lemma_address(m: Map<Seq<char>, SessionView>, ip: Seq<char>)
    requires
        sessions_ok(m),
        m.dom().contains(ip),
    ensures
        id_known(m, m[ip].session_id),
        address_of(m, m[ip].session_id) == ip,
{
    let id = m[ip].session_id;
    assert(has_id(m, ip, id));
    let a = address_of(m, id);
    assert(has_id(m, a, id));
    assert(m.dom().contains(a));
}

proof fn lemma_without_one_more(m: Map<Seq<char>, SessionView>, ids: Seq<Seq<char>>, id: Seq<char>)
    requires
        sessions_ok(m),
        id_known(m, id),
        !ids.contains(id),
    ensures
        id_known(without_ids(m, ids), id),
        without_ids(m, ids).remove(address_of(without_ids(m, ids), id)) == without_ids(
            m,
            ids.push(id),
        ),
        sessions_ok(without_ids(m, ids)),
{
    let n = without_ids(m, ids);
    let ip = address_of(m, id);
    assert(has_id(m, ip, id));
    assert(has_id(n, ip, id));
    assert(sessions_ok(n)) by {
        assert forall|a: Seq<char>| #[trigger] n.dom().contains(a) implies n[a].source_ip == a by {
            assert(m.dom().contains(a));
        }
        assert forall|a: Seq<char>, b: Seq<char>| #[trigger]
            n.dom().contains(a) && #[trigger] n.dom().contains(b) && n[a].session_id
                == n[b].session_id implies a == b by {
            assert(m.dom().contains(a) && m.dom().contains(b));
        }
    }
    lemma_address(n, ip);
    assert forall|a: Seq<char>| n.remove(ip).dom().contains(a) <==> #[trigger] without_ids(
        m,
        ids.push(id),
    ).dom().contains(a) by {
        if m.dom().contains(a) {
            text::lemma_push_contains(ids, id, m[a].session_id);
            if m[a].session_id == id {
                lemma_address(m, a);
            }
        }
    }
    assert(n.remove(ip) =~= without_ids(m, ids.push(id)));
}

proof fn lemma_remove_keys_push<V>(m: Map<Seq<char>, V>, ids: Seq<Seq<char>>, id: Seq<char>)
    ensures
        m.remove_keys(ids.to_set()).remove(id) == m.remove_keys(ids.push(id).to_set()),
{
    assert forall|x: Seq<char>| ids.push(id).to_set().contains(x) <==> ids.to_set().contains(x) || x
        == id by {
        text::lemma_push_contains(ids, id, x);
    }
    assert(m.remove_keys(ids.to_set()).remove(id) =~= m.remove_keys(ids.push(id).to_set()));
}

impl SessionStore {
    fn ended(&self, now: u64) -> (ids: Vec<String>)
        ensures
            text::string_views(ids@).no_duplicates(),
            forall|id: Seq<char>|
                text::string_views(ids@).contains(id) <==> #[trigger] id_ended(
                    self@.sessions,
                    id,
                    now,
                ),
    {
        let ghost m = self@.sessions;
        let mut ids: Vec<String> = Vec::new();
        let n: usize = self.count();
        let mut i: usize = 0;
        while i < n
            invariant
                i <= n,
                m == self@.sessions,
                sessions_ok(m),
                n == self.order().len(),
                m.dom() == self.order().to_set(),
                self.order().no_duplicates(),
                text::string_views(ids@).no_duplicates(),
                forall|id: Seq<char>|
                    #[trigger] text::string_views(ids@).contains(id) <==> exists|j: int|
                        0 <= j < i && m[#[trigger] self.order()[j]].session_id == id
                            && session_ended(m[self.order()[j]], now),
            decreases n - i,
        {
            let e = self.sessions.at(i);
            let ghost ip = self.order()[i as int];
            proof {
                assert(self.order().to_set().contains(ip));
                assert(m.dom().contains(ip));
            }
            let has_ended = match e.1.expires_at {
                Some(t) => clock::to_signed(t) < clock::to_signed(now),
                None => false,
            };
            let ghost before = text::string_views(ids@);
            if has_ended {
                ids.push(e.1.session_id.clone());
                proof {
                    let id = m[ip].session_id;
                    assert(text::string_views(ids@) =~= before.push(id));
                    if before.contains(id) {
                        let j = choose|j: int|
                            0 <= j < i && m[#[trigger] self.order()[j]].session_id == id
                                && session_ended(m[self.order()[j]], now);
                        let other = self.order()[j];
                        assert(self.order().to_set().contains(other));
                        assert(m.dom().contains(other));
                        assert(other == ip);
                    }
                    assert(before.push(id).no_duplicates());
                    assert forall|x: Seq<char>| #[trigger]
                        text::string_views(ids@).contains(x) <==> exists|j: int|
                            0 <= j < i + 1 && m[#[trigger] self.order()[j]].session_id == x
                                && session_ended(m[self.order()[j]], now) by {
                        text::lemma_push_contains(before, id, x);
                        if x == id {
                            assert(m[self.order()[i as int]].session_id == x);
                        }
                    }
                }
            }
            i = i + 1;
        }
        proof {
            assert forall|id: Seq<char>|
                text::string_views(ids@).contains(id) <==> #[trigger] id_ended(m, id, now) by {
                if text::string_views(ids@).contains(id) {
                    let j = choose|j: int|
                        0 <= j < n && m[#[trigger] self.order()[j]].session_id == id
                            && session_ended(m[self.order()[j]], now);
                    let ip = self.order()[j];
                    assert(self.order().to_set().contains(ip));
                    lemma_address(m, ip);
                }
                if id_ended(m, id, now) {
                    let ip = address_of(m, id);
                    assert(has_id(m, ip, id));
                    assert(self.order().to_set().contains(ip));
                    let j = self.order().index_of(ip);
                    assert(self.order()[j] == ip);
                }
            }
        }
        ids
    }

    /// Takes out the sessions that have ended before `now`, and what is held of them,
    /// and gives their ids.
    pub fn purge_expired(&mut self, now: u64) -> (ids: Vec<String>)
        ensures
            final(self)@.sessions == lasting(old(self)@.sessions, now),
            text::string_views(ids@).no_duplicates(),
            forall|id: Seq<char>|
                text::string_views(ids@).contains(id) <==> #[trigger] id_ended(
                    old(self)@.sessions,
                    id,
                    now,
                ),
            final(self)@.stats == old(self)@.stats.remove_keys(text::string_views(ids@).to_set()),
            final(self)@.key_maps == old(self)@.key_maps.remove_keys(text::string_views(ids@).to_set()),
            final(self)@ == purged(old(self)@, now),
            store_ok(final(self)@),
    {
        proof {
            use_type_invariant(&*self);
        }
        let ids = self.ended(now);
        let ghost all = text::string_views(ids@);
        let ghost start = self@;
        let mut i: usize = 0;
        proof {
            assert(without_ids(start.sessions, all.take(0)) =~= start.sessions);
            assert(start.stats.remove_keys(all.take(0).to_set()) =~= start.stats);
            assert(start.key_maps.remove_keys(all.take(0).to_set()) =~= start.key_maps);
        }
        while i < ids.len()
            invariant
                all == text::string_views(ids@),
                all.no_duplicates(),
                i <= ids@.len(),
                sessions_ok(start.sessions),
                store_ok(self@),
                forall|id: Seq<char>|
                    all.contains(id) <==> #[trigger] id_ended(start.sessions, id, now),
                self@.sessions == without_ids(start.sessions, all.take(i as int)),
                self@.stats == start.stats.remove_keys(all.take(i as int).to_set()),
                self@.key_maps == start.key_maps.remove_keys(all.take(i as int).to_set()),
            decreases ids@.len() - i,
        {
            proof {
                let some = all.take(i as int);
                let id = all[i as int];
                assert(all.take(i + 1) =~= some.push(id));
                assert(all.contains(id));
                assert(id_ended(start.sessions, id, now));
                if some.contains(id) {
                    let j = some.index_of(id);
                    assert(all[j] == all[i as int]);
                }
                lemma_without_one_more(start.sessions, some, id);
                lemma_remove_keys_push(start.stats, some, id);
                lemma_remove_keys_push(start.key_maps, some, id);
            }
            let _ = self.delete(ids[i].as_str());
            i = i + 1;
        }
        proof {
            assert(all.take(i as int) =~= all);
            let m = start.sessions;
            assert forall|ip: Seq<char>| #[trigger]
                without_ids(m, all).dom().contains(ip) <==> lasting(m, now).dom().contains(ip) by {
                if m.dom().contains(ip) {
                    lemma_address(m, ip);
                    assert(all.contains(m[ip].session_id) <==> id_ended(
                        m,
                        m[ip].session_id,
                        now,
                    ));
                }
            }
            assert(without_ids(m, all) =~= lasting(m, now));
            let w = purged(start, now);
            assert forall|id: Seq<char>| #[trigger]
                all.to_set().contains(id) <==> id_ended(m, id, now) by {
                assert(all.contains(id) <==> id_ended(m, id, now));
            }
            assert(self@.stats.dom() =~= w.stats.dom());
            assert(self@.stats =~= w.stats);
            assert(self@.key_maps.dom() =~= w.key_maps.dom());
            assert(self@.key_maps =~= w.key_maps);
        }
        ids
    }
}

// ---------------------------------------------------------------------------
// Laws
// ---------------------------------------------------------------------------

/// A session that was made is found, by its id and by its address, and is found
/// without its key. Every other session is found as before.
pub proof fn law_made_session_is_found(m: Map<Seq<char>, SessionView>, s: SessionView)
    requires
        sessions_ok(m),
        !id_known(m, s.session_id),
        !m.dom().contains(s.source_ip),
    ensures
        ({
            let n = m.insert(s.source_ip, keyless(s));
            &&& sessions_ok(n)
            &&& id_known(n, s.session_id)
            &&& address_of(n, s.session_id) == s.source_ip
            &&& n[s.source_ip] == keyless(s)
            &&& n[s.source_ip].api_key is None
            &&& forall|id: Seq<char>| #[trigger]
                id_known(m, id) ==> id_known(n, id) && n[address_of(n, id)] == m[address_of(m, id)]
        }),
{
    let n = m.insert(s.source_ip, keyless(s));
    assert forall|ip: Seq<char>| m.dom().contains(ip) implies #[trigger] m[ip].session_id
        != s.session_id by {
        if m[ip].session_id == s.session_id {
            assert(has_id(m, ip, s.session_id));
        }
    }
    assert(sessions_ok(n));
    lemma_address(n, s.source_ip);
    assert forall|id: Seq<char>| #[trigger] id_known(m, id) implies id_known(n, id)
        && n[address_of(n, id)] == m[address_of(m, id)] by {
        let ip = address_of(m, id);
        assert(has_id(m, ip, id));
        assert(n.dom().contains(ip));
        lemma_address(n, ip);
    }
}

/// Deleting the session that was made last leaves the sessions as they were before
/// it was made.
pub proof fn law_delete_undoes_create(m: Map<Seq<char>, SessionView>, s: SessionView)
    requires
        sessions_ok(m),
        !id_known(m, s.session_id),
        !m.dom().contains(s.source_ip),
    ensures
        ({
            let n = m.insert(s.source_ip, keyless(s));
            n.remove(address_of(n, s.session_id)) == m
        }),
{
    law_made_session_is_found(m, s);
    let n = m.insert(s.source_ip, keyless(s));
    assert(n.remove(s.source_ip) =~= m);
}

/// A session that was deleted is not found, neither by its id nor by its address,
/// and nothing is held of it; every other session is found as before.
pub proof fn law_deleted_session_is_gone(v: StoreView, id: Seq<char>)
    requires
        sessions_ok(v.sessions),
        id_known(v.sessions, id),
    ensures
        ({
            let w = without_session(v, id);
            &&& sessions_ok(w.sessions)
            &&& !id_known(w.sessions, id)
            &&& !w.sessions.dom().contains(address_of(v.sessions, id))
            &&& !w.stats.dom().contains(id)
            &&& key_map_of(w, id) == Map::<Seq<char>, Seq<char>>::empty()
            &&& forall|other: Seq<char>|
                other != id && #[trigger] id_known(v.sessions, other) ==> id_known(
                    w.sessions,
                    other,
                ) && w.sessions[address_of(w.sessions, other)] == v.sessions[address_of(
                    v.sessions,
                    other,
                )]
        }),
{
    let m = v.sessions;
    let w = without_session(v, id);
    let ip = address_of(m, id);
    assert(has_id(m, ip, id));
    lemma_remove_ok(m, ip);
    if id_known(w.sessions, id) {
        let a = address_of(w.sessions, id);
        assert(has_id(w.sessions, a, id));
        assert(m.dom().contains(a) && m.dom().contains(ip));
    }
    assert forall|other: Seq<char>| other != id && #[trigger] id_known(m, other) implies id_known(
        w.sessions,
        other,
    ) && w.sessions[address_of(w.sessions, other)] == m[address_of(m, other)] by {
        let a = address_of(m, other);
        assert(has_id(m, a, other));
        assert(w.sessions.dom().contains(a));
        lemma_address(w.sessions, a);
    }
}

/// A session that is written to the database is read back as it was, without its
/// key.
pub proof fn law_row_reads_back(s: SessionView)
    ensures
        session_of(row_of(s)) == keyless(s),
{
}

/// After a restart every session is found under its own address, no two have the
/// same id, none has a key, and none has ended.
pub proof fn law_loaded_sessions_are_sound(rows: Seq<RowView>, now: u64)
    ensures
        sessions_ok(loaded(rows, now)),
        forall|ip: Seq<char>| #[trigger]
            loaded(rows, now).dom().contains(ip) ==> loaded(rows, now)[ip].api_key is None
                && !session_ended(loaded(rows, now)[ip], now),
    decreases rows.len(),
{
    if rows.len() > 0 {
        let m = loaded(rows.drop_last(), now);
        let row = rows.last();
        law_loaded_sessions_are_sound(rows.drop_last(), now);
        if !row_ended(row, now) && !id_known(m, row.session_id) && !m.dom().contains(
            row.source_ip,
        ) {
            law_made_session_is_found(m, session_of(row));
            assert(keyless(session_of(row)) == session_of(row));
        }
    }
}

/// Whether the rows are those of the sessions of `m`, each once.
pub open spec fn rows_hold(rows: Seq<RowView>, m: Map<Seq<char>, SessionView>) -> bool {
    &&& forall|i: int|
        0 <= i < rows.len() ==> m.dom().contains((#[trigger] rows[i]).source_ip) && rows[i]
            == row_of(m[rows[i].source_ip])
    &&& forall|i: int, j: int|
        0 <= i < rows.len() && 0 <= j < rows.len() && i != j ==> (#[trigger] rows[i]).source_ip != (
        #[trigger] rows[j]).source_ip
    &&& forall|ip: Seq<char>| #[trigger]
        m.dom().contains(ip) ==> exists|i: int|
            0 <= i < rows.len() && (#[trigger] rows[i]).source_ip == ip
}

spec fn loaded_from(rows: Seq<RowView>, now: u64, m: Map<Seq<char>, SessionView>) -> Map<
    Seq<char>,
    SessionView,
> {
    Map::new(
        |ip: Seq<char>|
            exists|i: int|
                0 <= i < rows.len() && (#[trigger] rows[i]).source_ip == ip && !session_ended(
                    m[ip],
                    now,
                ),
        |ip: Seq<char>| keyless(m[ip]),
    )
}

proof fn lemma_loaded_prefix(
    rows: Seq<RowView>,
    now: u64,
    m: Map<Seq<char>, SessionView>,
    k: int,
)
    requires
        sessions_ok(m),
        rows_hold(rows, m),
        0 <= k <= rows.len(),
    ensures
        loaded(rows.take(k), now) == loaded_from(rows.take(k), now, m),
    decreases k,
{
    if k == 0 {
        assert(loaded(rows.take(0), now) =~= loaded_from(rows.take(0), now, m));
    } else {
        let some = rows.take(k - 1);
        let row = rows[k - 1];
        let before = loaded(some, now);
        let ip = row.source_ip;
        lemma_loaded_prefix(rows, now, m, k - 1);
        assert(rows.take(k).drop_last() =~= some);
        assert(rows.take(k).last() == row);
        assert(m.dom().contains(rows[k - 1].source_ip) && row == row_of(m[ip]));
        assert(m[ip].source_ip == ip);
        assert(row_ended(row, now) == session_ended(m[ip], now));
        if before.dom().contains(ip) {
            let i = choose|i: int|
                0 <= i < some.len() && (#[trigger] some[i]).source_ip == ip && !session_ended(
                    m[ip],
                    now,
                );
            assert(rows[i].source_ip == rows[k - 1].source_ip);
        }
        if id_known(before, row.session_id) {
            let a = address_of(before, row.session_id);
            assert(has_id(before, a, row.session_id));
            let i = choose|i: int|
                0 <= i < some.len() && (#[trigger] some[i]).source_ip == a && !session_ended(
                    m[a],
                    now,
                );
            assert(rows[i] == some[i]);
            assert(m.dom().contains(a) && m.dom().contains(ip));
            assert(a == ip);
        }
        law_row_reads_back(m[ip]);
        let after = loaded_from(rows.take(k), now, m);
        assert forall|a: Seq<char>| #[trigger] after.dom().contains(a) <==> loaded(
            rows.take(k),
            now,
        ).dom().contains(a) by {
            if before.dom().contains(a) {
                let i = choose|i: int|
                    0 <= i < some.len() && (#[trigger] some[i]).source_ip == a && !session_ended(
                        m[a],
                        now,
                    );
                assert(rows.take(k)[i].source_ip == a);
            }
            if a == ip {
                assert(rows.take(k)[k - 1].source_ip == a);
            }
            if after.dom().contains(a) && a != ip {
                let i = choose|i: int|
                    0 <= i < rows.take(k).len() && (#[trigger] rows.take(k)[i]).source_ip == a
                        && !session_ended(m[a], now);
                assert(some[i].source_ip == a);
            }
        }
        assert(loaded(rows.take(k), now) =~= after);
    }
}

/// What is written of the sessions, whatever the order of the rows, is loaded again
/// after a restart: all sessions that have not ended, without their keys, and no
/// others.
pub proof fn law_sessions_survive_restart(
    rows: Seq<RowView>,
    now: u64,
    m: Map<Seq<char>, SessionView>,
)
    requires
        sessions_ok(m),
        rows_hold(rows, m),
    ensures
        loaded(rows, now).dom() == lasting(m, now).dom(),
        forall|ip: Seq<char>| #[trigger]
            loaded(rows, now).dom().contains(ip) ==> loaded(rows, now)[ip] == keyless(m[ip]),
{
    let k = rows.len() as int;
    lemma_loaded_prefix(rows, now, m, k);
    assert(rows.take(k) =~= rows);
    assert forall|ip: Seq<char>| #[trigger] loaded(rows, now).dom().contains(ip) <==> lasting(
        m,
        now,
    ).dom().contains(ip) by {
        if loaded(rows, now).dom().contains(ip) {
            let i = choose|i: int|
                0 <= i < rows.len() && (#[trigger] rows[i]).source_ip == ip && !session_ended(
                    m[ip],
                    now,
                );
            assert(m.dom().contains(rows[i].source_ip));
        }
    }
    assert(loaded(rows, now).dom() =~= lasting(m, now).dom());
}

/// Requests of the three kinds add up to the total, as long as no other kind was
/// counted.
pub proof fn law_kinds_add_up(s: SessionStats, kind: Seq<char>, up: u64, down: u64)
    requires
        can_count(s, up, down),
        s.requests_mitm + s.requests_tunnel + s.requests_dropped == s.requests_total,
        kind == "mitm"@ || kind == "tunnel"@ || kind == "dropped"@,
    ensures
        ({
            let t = counted(s, kind, up, down);
            t.requests_mitm + t.requests_tunnel + t.requests_dropped == t.requests_total
        }),
{
    reveal_strlit("mitm");
    reveal_strlit("tunnel");
    reveal_strlit("dropped");
    assert("mitm"@.len() != "tunnel"@.len() && "mitm"@.len() != "dropped"@.len()
        && "tunnel"@.len() != "dropped"@.len());
}

/// One request counts as one, under its kind and no other, and the bytes that went each way
/// are added to those that went that way before.
pub proof fn law_request_is_counted_once(s: SessionStats, kind: Seq<char>, up: u64, down: u64)
    requires
        can_count(s, up, down),
    ensures
        ({
            let t = counted(s, kind, up, down);
            let one = |b: bool|
                if b {
                    1int
                } else {
                    0int
                };
            &&& t.requests_total == s.requests_total + 1
            &&& t.requests_mitm == s.requests_mitm + one(kind == "mitm"@)
            &&& t.requests_tunnel == s.requests_tunnel + one(kind == "tunnel"@)
            &&& t.requests_dropped == s.requests_dropped + one(kind == "dropped"@)
            &&& t.bytes_upstream == s.bytes_upstream + up
            &&& t.bytes_downstream == s.bytes_downstream + down
        }),
{
}

/// A session that has sent nothing has counted nothing.
pub proof fn law_counting_begins_at_nothing(v: StoreView, id: Seq<char>)
    ensures
        v.stats.dom().contains(id) ==> stats_of(v, id) == v.stats[id],
        !v.stats.dom().contains(id) ==> ({
            let s = stats_of(v, id);
            s.requests_total == 0 && s.requests_mitm == 0 && s.requests_tunnel == 0
                && s.requests_dropped == 0 && s.bytes_upstream == 0 && s.bytes_downstream == 0
        }),
        v.key_maps.dom().contains(id) ==> key_map_of(v, id) == v.key_maps[id],
        !v.key_maps.dom().contains(id) ==> key_map_of(v, id) == Map::<
            Seq<char>,
            Seq<char>,
        >::empty(),
{
}

/// A session has ended once its last second is past, and one without an end never has. Its
/// row in the database says the same.
pub proof fn law_session_ends_at_its_time(s: SessionView, now: u64)
    requires
        now < 0x8000_0000_0000_0000,
        s.expires_at matches Some(t) ==> t < 0x8000_0000_0000_0000,
    ensures
        session_ended(s, now) <==> (s.expires_at matches Some(t) && t < now),
        row_ended(row_of(s), now) <==> (s.expires_at matches Some(t) && t < now),
{
}

/// Without its key, a session is otherwise as it was; and its row holds all but the key.
pub proof fn law_only_the_key_is_left_out(s: SessionView)
    ensures
        keyless(s).session_id == s.session_id,
        keyless(s).source_ip == s.source_ip,
        keyless(s).allowlist == s.allowlist,
        keyless(s).created_at == s.created_at,
        keyless(s).expires_at == s.expires_at,
        keyless(s).api_key is None,
        row_of(s).session_id == s.session_id,
        row_of(s).source_ip == s.source_ip,
        row_of(s).allowlist == Some(s.allowlist),
        row_of(s).created_at as int == clock::signed(s.created_at),
        s.expires_at is Some <==> row_of(s).expires_at is Some,
        s.expires_at matches Some(t) ==> row_of(s).expires_at->0 as int == clock::signed(t),
{
}

/// A row of the database is read as the session that it names. One whose list cannot be
/// read is a session that reaches nothing.
pub proof fn law_row_is_read_as_it_is(row: RowView)
    ensures
        session_of(row).session_id == row.session_id,
        session_of(row).source_ip == row.source_ip,
        row.allowlist matches Some(l) ==> session_of(row).allowlist == l,
        row.allowlist is None ==> session_of(row).allowlist.len() == 0,
        session_of(row).created_at as int == clock::unsigned(row.created_at),
        row.expires_at is Some <==> session_of(row).expires_at is Some,
        row.expires_at matches Some(t) ==> session_of(row).expires_at->0 as int == clock::unsigned(
            t,
        ),
        session_of(row).api_key is None,
{
}

/// What is taken out when sessions end are those that have ended: each other session is
/// there as it was.
pub proof fn law_lasting_sessions_stay(m: Map<Seq<char>, SessionView>, ip: Seq<char>, now: u64)
    requires
        now < 0x8000_0000_0000_0000,
        m.dom().contains(ip),
        m[ip].expires_at matches Some(t) ==> t < 0x8000_0000_0000_0000,
    ensures
        (m[ip].expires_at matches Some(t) ==> t >= now) ==> lasting(m, now).dom().contains(ip)
            && lasting(m, now)[ip] == m[ip],
        (m[ip].expires_at matches Some(t) && t < now) ==> !lasting(m, now).dom().contains(ip),
        forall|other: Seq<char>| #[trigger]
            lasting(m, now).dom().contains(other) ==> m.dom().contains(other),
{
}

/// Deleting a session leaves the others: their sessions, their counts and their keys.
pub proof fn law_delete_leaves_the_others(v: StoreView, id: Seq<char>, ip: Seq<char>)
    requires
        store_ok(v),
        id_known(v.sessions, id),
        v.sessions.dom().contains(ip),
    ensures
        ({
            let w = without_session(v, id);
            let other = v.sessions[ip].session_id;
            &&& w.sessions.dom().contains(ip) <==> other != id
            &&& other != id ==> {
                &&& w.sessions[ip] == v.sessions[ip]
                &&& stats_of(w, other) == stats_of(v, other)
                &&& key_map_of(w, other) == key_map_of(v, other)
            }
        }),
{
    lemma_address(v.sessions, ip);
    let at = address_of(v.sessions, id);
    assert(has_id(v.sessions, at, id));
}

proof fn lemma_loaded_comes_from(rows: Seq<RowView>, now: u64, ip: Seq<char>)
    requires
        loaded(rows, now).dom().contains(ip),
    ensures
        exists|i: int|
            0 <= i < rows.len() && (#[trigger] rows[i]).source_ip == ip && loaded(rows, now)[ip]
                == session_of(rows[i]) && !row_ended(rows[i], now),
    decreases rows.len(),
{
    if rows.len() > 0 {
        let init = rows.drop_last();
        if loaded(init, now).dom().contains(ip) {
            lemma_loaded_comes_from(init, now, ip);
            let i = choose|i: int|
                0 <= i < init.len() && (#[trigger] init[i]).source_ip == ip && loaded(init, now)[ip]
                    == session_of(init[i]) && !row_ended(init[i], now);
            assert(rows[i] == init[i]);
            assert(loaded(rows, now)[ip] == loaded(init, now)[ip]);
        } else {
            assert(rows[rows.len() - 1].source_ip == ip);
        }
    }
}

/// Every session that is there after a restart comes from a row of its address that has not
/// ended.
pub proof fn law_loaded_session_has_its_row(rows: Seq<RowView>, now: u64, ip: Seq<char>)
    requires
        loaded(rows, now).dom().contains(ip),
    ensures
        exists|i: int|
            0 <= i < rows.len() && (#[trigger] rows[i]).source_ip == ip && loaded(
                rows,
                now,
            )[ip].session_id == rows[i].session_id && !row_ended(rows[i], now) && (
            rows[i].allowlist matches Some(l) ==> loaded(rows, now)[ip].allowlist == l),
{
    lemma_loaded_comes_from(rows, now, ip);
}

/// The rows that have ended are named, each by its own session, and no others.
pub proof fn law_ended_rows_are_named(rows: Seq<RowView>, now: u64, id: Seq<char>)
    ensures
        ended_ids(rows, now).contains(id) <==> exists|i: int|
            0 <= i < rows.len() && (#[trigger] rows[i]).session_id == id && row_ended(rows[i], now),
    decreases rows.len(),
{
    if rows.len() > 0 {
        let init = rows.drop_last();
        let last = rows.last();
        law_ended_rows_are_named(init, now, id);
        text::lemma_push_contains(ended_ids(init, now), last.session_id, id);
        if exists|i: int|
            0 <= i < init.len() && (#[trigger] init[i]).session_id == id && row_ended(init[i], now) {
            let i = choose|i: int|
                0 <= i < init.len() && (#[trigger] init[i]).session_id == id && row_ended(
                    init[i],
                    now,
                );
            assert(rows[i] == init[i]);
        }
        if exists|i: int|
            0 <= i < rows.len() && (#[trigger] rows[i]).session_id == id && row_ended(rows[i], now) {
            let i = choose|i: int|
                0 <= i < rows.len() && (#[trigger] rows[i]).session_id == id && row_ended(
                    rows[i],
                    now,
                );
            if i < init.len() {
                assert(init[i] == rows[i]);
            }
        }
        assert(rows[rows.len() - 1] == last);
    }
}

/// A row of the database is seen with all that it holds.
pub proof fn law_row_is_seen_whole(r: SessionRow)
    ensures
        r@.session_id == r.session_id@,
        r@.source_ip == r.source_ip@,
        r.allowlist is Some <==> r@.allowlist is Some,
        r.allowlist matches Some(l) ==> r@.allowlist->0.len() == l@.len() && forall|i: int|
            0 <= i < l@.len() ==> r@.allowlist->0[i] == (#[trigger] l@[i])@,
        r@.created_at == r.created_at,
        r@.expires_at == r.expires_at,
{
}

/// Of a session that has ended nothing is left: neither the session nor its counts nor its
/// keys. Of one that has not, all is left as it was.
pub proof fn law_nothing_is_left_of_ended_sessions(v: StoreView, ip: Seq<char>, now: u64)
    requires
        store_ok(v),
        v.sessions.dom().contains(ip),
        now < 0x8000_0000_0000_0000,
        v.sessions[ip].expires_at matches Some(t) ==> t < 0x8000_0000_0000_0000,
    ensures
        ({
            let id = v.sessions[ip].session_id;
            let w = purged(v, now);
            let ended = v.sessions[ip].expires_at matches Some(t) && t < now;
            &&& ended ==> !w.sessions.dom().contains(ip) && !w.stats.dom().contains(id)
                && !w.key_maps.dom().contains(id)
            &&& !ended ==> {
                &&& w.sessions.dom().contains(ip) && w.sessions[ip] == v.sessions[ip]
                &&& stats_of(w, id) == stats_of(v, id)
                &&& key_map_of(w, id) == key_map_of(v, id)
            }
        }),
{
    lemma_address(v.sessions, ip);
}

} // verus!
