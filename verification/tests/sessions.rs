//! The store of sessions, and times.

use agent_env::clock::{format_iso8601, now_secs, parse_iso8601, to_signed, to_unsigned};
use agent_env::session::store::{SessionRow, SessionStore};
use agent_env::session::{
    AllowlistEntry, Session, SessionError, SessionResponse, SessionStats, SessionSummary,
};
use agent_env::strmap::StrMap;

fn make_session(id: &str, ip: &str) -> Session {
    Session {
        session_id: id.to_string(),
        source_ip: ip.to_string(),
        allowlist: vec![AllowlistEntry {
            domain: "api.openai.com".to_string(),
            mode: "mitm".to_string(),
            credential_ref: Some("vault://secret/data/test-key".to_string()),
        }],
        created_at: now_secs(),
        expires_at: Some(now_secs() + 3600),
        api_key: Some("sk-test-key".to_string()),
    }
}

fn new_store() -> SessionStore {
    SessionStore::in_memory().ok().unwrap()
}

/// Makes a session and keeps its row, as a database would.
fn create_stored(store: &mut SessionStore, table: &mut Vec<SessionRow>, session: Session) {
    let id_stored = table.iter().any(|r| r.session_id == session.session_id);
    let ip_stored = table.iter().any(|r| r.source_ip == session.source_ip);
    let row = store.check_new(&session, id_stored, ip_stored).unwrap();
    table.push(row);
    store.finish_create(session, Ok(())).unwrap();
}

#[test]
fn test_create_and_get() {
    let mut store = new_store();
    let session = make_session("sess_001", "10.0.1.42");

    store.create(session.clone()).unwrap();

    // Get by session_id
    let retrieved = store.get("sess_001").expect("session should exist");
    assert_eq!(retrieved.session_id, "sess_001");
    assert_eq!(retrieved.source_ip, "10.0.1.42");
    assert_eq!(retrieved.allowlist.len(), 1);
    assert_eq!(retrieved.allowlist[0].domain, "api.openai.com");
    assert_eq!(retrieved.allowlist[0].mode, "mitm");

    // Get by source_ip (used in CONNECT handling)
    let by_ip = store.get_by_ip("10.0.1.42").expect("session should exist");
    assert_eq!(by_ip.session_id, "sess_001");
}

#[test]
fn test_api_key_not_persisted() {
    let mut store = new_store();
    let mut session = make_session("sess_key", "10.0.1.50");
    session.api_key = Some("sk-secret".to_string());

    store.create(session).unwrap();

    // api_key should be None after create (not persisted)
    let retrieved = store.get("sess_key").unwrap();
    assert_eq!(retrieved.api_key, None);
}

#[test]
fn test_duplicate_session_id_rejected() {
    let mut store = new_store();
    store.create(make_session("sess_dup", "10.0.1.51")).unwrap();

    let result = store.create(make_session("sess_dup", "10.0.1.52"));
    assert!(result.is_err());
    match result.unwrap_err() {
        SessionError::AlreadyExists(id) => assert_eq!(id, "sess_dup"),
        e => panic!("expected AlreadyExists, got {e:?}"),
    }
}

#[test]
fn test_duplicate_source_ip_rejected() {
    let mut store = new_store();
    store.create(make_session("sess_a", "10.0.1.60")).unwrap();

    let result = store.create(make_session("sess_b", "10.0.1.60"));
    assert!(result.is_err());
    match result.unwrap_err() {
        SessionError::AlreadyExists(ip) => assert_eq!(ip, "10.0.1.60"),
        e => panic!("expected AlreadyExists, got {e:?}"),
    }
}

#[test]
fn test_delete() {
    let mut store = new_store();
    store.create(make_session("sess_del", "10.0.1.70")).unwrap();

    assert!(store.get("sess_del").is_some());

    let deleted = store.delete("sess_del").unwrap();
    assert!(deleted);

    assert!(store.get("sess_del").is_none());
    assert!(store.get_by_ip("10.0.1.70").is_none());

    // Deleting again returns false
    let deleted_again = store.delete("sess_del").unwrap();
    assert!(!deleted_again);
}

#[test]
fn test_delete_nonexistent() {
    let mut store = new_store();
    let result = store.delete("nonexistent").unwrap();
    assert!(!result);
}

#[test]
fn test_list() {
    let mut store = new_store();
    store
        .create(make_session("sess_list1", "10.0.1.80"))
        .unwrap();
    store
        .create(make_session("sess_list2", "10.0.1.81"))
        .unwrap();

    let list = store.list();
    assert_eq!(list.len(), 2);
}

#[test]
fn test_count() {
    let mut store = new_store();
    assert_eq!(store.count(), 0);
    store
        .create(make_session("sess_count", "10.0.1.90"))
        .unwrap();
    assert_eq!(store.count(), 1);
}

#[test]
fn test_set_api_key() {
    let mut store = new_store();
    store
        .create(make_session("sess_apikey", "10.0.1.91"))
        .unwrap();

    // api_key is None after create
    assert_eq!(store.get("sess_apikey").unwrap().api_key, None);

    let set = store.set_api_key("sess_apikey", "sk-fetched".to_string());
    assert!(set);

    assert_eq!(
        store.get("sess_apikey").unwrap().api_key,
        Some("sk-fetched".to_string())
    );
}

#[test]
fn test_set_api_key_nonexistent() {
    let mut store = new_store();
    let set = store.set_api_key("nonexistent", "sk-key".to_string());
    assert!(!set);
}

#[test]
fn test_persist_and_recover() {
    let mut table: Vec<SessionRow> = Vec::new();
    {
        let (mut store, _) = SessionStore::open(&table, now_secs());
        create_stored(&mut store, &mut table, make_session("sess_persist", "10.0.1.100"));
        assert_eq!(store.count(), 1);
    }

    let (store, erased) = SessionStore::open(&table, now_secs());
    assert!(erased.is_empty());
    assert_eq!(store.count(), 1);
    let session = store
        .get("sess_persist")
        .expect("session should survive restart");
    assert_eq!(session.session_id, "sess_persist");
    assert_eq!(session.source_ip, "10.0.1.100");
    assert_eq!(session.allowlist.len(), 1);
    assert_eq!(session.allowlist[0].domain, "api.openai.com");
    assert_eq!(session.allowlist[0].mode, "mitm");
    // api_key not persisted — must be None on recovery
    assert_eq!(session.api_key, None);
}

#[test]
fn test_delete_persists_to_sqlite() {
    let mut table: Vec<SessionRow> = Vec::new();
    {
        let (mut store, _) = SessionStore::open(&table, now_secs());
        create_stored(&mut store, &mut table, make_session("sess_del_persist", "10.0.1.110"));
        table.retain(|r| r.session_id != "sess_del_persist");
        let deleted = store.finish_delete("sess_del_persist", Ok(())).unwrap();
        assert!(deleted);
    }

    let (store, _) = SessionStore::open(&table, now_secs());
    assert_eq!(store.count(), 0);
    assert!(store.get("sess_del_persist").is_none());
}

#[test]
fn test_expired_sessions_cleaned_on_startup() {
    let mut table: Vec<SessionRow> = Vec::new();
    {
        let (mut store, _) = SessionStore::open(&table, now_secs());

        let mut expired = make_session("sess_expired", "10.0.1.120");
        expired.expires_at = Some(now_secs() - 100); // expired 100s ago
        create_stored(&mut store, &mut table, expired);

        let active = make_session("sess_active", "10.0.1.121");
        create_stored(&mut store, &mut table, active);

        assert_eq!(store.count(), 2);
    }

    let (store, erased) = SessionStore::open(&table, now_secs());
    assert_eq!(erased, vec!["sess_expired".to_string()]);
    assert_eq!(store.count(), 1);
    assert!(store.get("sess_expired").is_none());
    assert!(store.get("sess_active").is_some());
}

#[test]
fn test_no_expiry_session_survives() {
    let mut table: Vec<SessionRow> = Vec::new();
    {
        let (mut store, _) = SessionStore::open(&table, now_secs());
        let mut session = make_session("sess_noexpiry", "10.0.1.130");
        session.expires_at = None; // no expiry
        create_stored(&mut store, &mut table, session);
    }

    let (store, _) = SessionStore::open(&table, now_secs());
    assert_eq!(store.count(), 1);
    let session = store.get("sess_noexpiry").unwrap();
    assert_eq!(session.expires_at, None);
}

#[test]
fn test_parse_iso8601() {
    assert_eq!(parse_iso8601(""), None);
    assert_eq!(parse_iso8601("not-a-date"), None);
    // Valid RFC3339 timestamp
    let ts = parse_iso8601("2026-07-07T22:37:06Z");
    assert!(ts.is_some());
    assert!(ts.unwrap() > 0);
}

#[test]
fn test_format_iso8601() {
    assert_eq!(format_iso8601(0), None);
    let ts_str = format_iso8601(1751908626).unwrap(); // 2025-07-07T...
    assert!(ts_str.contains("T"));
    assert!(ts_str.contains("Z") || ts_str.contains("+"));
}

#[test]
fn test_format_and_parse_roundtrip() {
    let original = 1751908626u64;
    let formatted = format_iso8601(original).unwrap();
    let parsed = parse_iso8601(&formatted).unwrap();
    assert_eq!(original, parsed);
}

#[test]
fn test_record_and_get_stats() {
    let mut store = new_store();
    store
        .create(make_session("sess_stats", "10.0.1.200"))
        .unwrap();

    store.record_stats("sess_stats", "mitm", 100, 200);
    store.record_stats("sess_stats", "mitm", 50, 75);
    store.record_stats("sess_stats", "tunnel", 30, 40);
    store.record_stats("sess_stats", "dropped", 0, 0);

    let stats = store.get_stats("sess_stats").expect("stats should exist");
    assert_eq!(stats.requests_total, 4);
    assert_eq!(stats.requests_mitm, 2);
    assert_eq!(stats.requests_tunnel, 1);
    assert_eq!(stats.requests_dropped, 1);
    assert_eq!(stats.bytes_upstream, 180);
    assert_eq!(stats.bytes_downstream, 315);
}

#[test]
fn test_stats_removed_on_delete() {
    let mut store = new_store();
    store
        .create(make_session("sess_stats_del", "10.0.1.201"))
        .unwrap();
    store.record_stats("sess_stats_del", "mitm", 10, 20);
    assert!(store.get_stats("sess_stats_del").is_some());

    store.delete("sess_stats_del").unwrap();
    assert!(store.get_stats("sess_stats_del").is_none());
}

#[test]
fn test_get_stats_nonexistent() {
    let store = new_store();
    assert!(store.get_stats("nonexistent").is_none());
}

#[test]
fn times_at_the_edges() {
    assert_eq!(format_iso8601(1), Some("1970-01-01T00:00:01Z".to_string()));
    assert_eq!(
        format_iso8601(253402300799),
        Some("9999-12-31T23:59:59Z".to_string())
    );
    assert_eq!(format_iso8601(253402300800), None);
    // The bits of -1 and of the seconds around the year 0.
    assert_eq!(
        format_iso8601(to_unsigned(-1)),
        Some("1969-12-31T23:59:59Z".to_string())
    );
    assert_eq!(
        format_iso8601(to_unsigned(-62167219200)),
        Some("0000-01-01T00:00:00Z".to_string())
    );
    assert_eq!(format_iso8601(to_unsigned(-62167219201)), Some(String::new()));
    assert_eq!(format_iso8601(to_unsigned(-377705116800)), Some(String::new()));
    assert_eq!(format_iso8601(to_unsigned(-377705116801)), None);
    for secs in [-62167219200i64, -1, 1, 951827696, 253402300799] {
        let ts = to_unsigned(secs);
        assert_eq!(parse_iso8601(&format_iso8601(ts).unwrap()), Some(ts));
    }
    assert_eq!(parse_iso8601("1969-12-31T23:59:59Z"), Some(u64::MAX));
    assert_eq!(parse_iso8601("2026-07-07T22:37:06+01:00"), Some(1783460226));
    assert_eq!(to_signed(u64::MAX), -1);
    assert_eq!(to_signed(7), 7);
}

#[test]
fn list_holds_each_session_once() {
    let mut store = new_store();
    for (id, ip) in [("b", "2"), ("a", "1"), ("c", "3")] {
        store.create(make_session(id, ip)).unwrap();
    }
    store.delete("a").unwrap();
    store.create(make_session("a", "1")).unwrap();
    let mut ids: Vec<String> = store.list().into_iter().map(|s| s.session_id).collect();
    ids.sort();
    assert_eq!(ids, vec!["a", "b", "c"]);
}

#[test]
fn deleting_undoes_making() {
    let mut store = new_store();
    store.create(make_session("first", "1")).unwrap();
    store.create(make_session("second", "2")).unwrap();
    store.delete("second").unwrap();
    assert_eq!(store.count(), 1);
    assert!(store.get("first").is_some());
    assert!(store.get_by_ip("2").is_none());
    store.create(make_session("second", "2")).unwrap();
    assert_eq!(store.count(), 2);
}

#[test]
fn a_failing_database_changes_nothing() {
    let mut store = new_store();
    let session = make_session("s", "1");
    assert!(store.check_new(&session, false, false).is_ok());
    match store.finish_create(session, Err("disk full".to_string())) {
        Err(SessionError::Sqlite(m)) => assert_eq!(m, "disk full"),
        other => panic!("expected Sqlite, got {other:?}"),
    }
    assert_eq!(store.count(), 0);
    store.create(make_session("s", "1")).unwrap();
    match store.finish_delete("s", Err("locked".to_string())) {
        Err(SessionError::Sqlite(m)) => assert_eq!(m, "locked"),
        other => panic!("expected Sqlite, got {other:?}"),
    }
    assert!(store.get("s").is_some());
}

#[test]
fn what_the_database_has_is_taken() {
    let store = new_store();
    let session = make_session("s", "1");
    match store.check_new(&session, true, true) {
        Err(SessionError::AlreadyExists(what)) => assert_eq!(what, "s"),
        other => panic!("expected AlreadyExists, got {other:?}"),
    }
    match store.check_new(&session, false, true) {
        Err(SessionError::AlreadyExists(what)) => assert_eq!(what, "1"),
        other => panic!("expected AlreadyExists, got {other:?}"),
    }
}

#[test]
fn rows_read_back_as_sessions_without_keys() {
    let mut session = make_session("s", "1");
    session.created_at = u64::MAX;
    session.expires_at = Some(17);
    let row = SessionRow::of_session(&session);
    assert_eq!(row.created_at, -1);
    assert_eq!(row.expires_at, Some(17));
    let back = row.to_session();
    assert_eq!(back.created_at, u64::MAX);
    assert_eq!(back.expires_at, Some(17));
    assert_eq!(back.allowlist, session.allowlist);
    assert_eq!(back.api_key, None);
    assert!(row.has_ended(18));
    assert!(!row.has_ended(17));
}

#[test]
fn an_unreadable_list_allows_nothing() {
    let mut row = SessionRow::of_session(&make_session("s", "1"));
    row.allowlist = None;
    assert!(row.to_session().allowlist.is_empty());
}

#[test]
fn the_first_of_two_rows_with_one_address_counts() {
    let rows = vec![
        SessionRow::of_session(&make_session("a", "1")),
        SessionRow::of_session(&make_session("b", "1")),
        SessionRow::of_session(&make_session("a", "2")),
    ];
    let (store, erased) = SessionStore::open(&rows, now_secs());
    assert_eq!(store.count(), 1);
    assert_eq!(store.get_by_ip("1").unwrap().session_id, "a");
    assert!(erased.is_empty());
}

#[test]
fn ended_sessions_are_purged_with_all_that_is_held() {
    let mut store = new_store();
    let mut ended = make_session("ended", "1");
    ended.expires_at = Some(99);
    store.create(ended).unwrap();
    let mut ending = make_session("ending", "2");
    ending.expires_at = Some(100);
    store.create(ending).unwrap();
    let mut lasting = make_session("lasting", "3");
    lasting.expires_at = None;
    store.create(lasting).unwrap();
    for id in ["ended", "ending", "lasting"] {
        store.record_stats(id, "tunnel", 1, 2);
        let mut keys = StrMap::new();
        keys.insert("d".to_string(), "r".to_string());
        assert!(store.set_key_map(id, keys));
    }
    assert_eq!(store.purge_expired(100), vec!["ended".to_string()]);
    assert!(store.get("ended").is_none());
    assert!(store.get_by_ip("1").is_none());
    assert!(store.get_stats("ended").is_none());
    assert!(store.key_map("ended").is_empty());
    assert!(store.get("ending").is_some());
    assert!(store.get_stats("ending").is_some());
    assert_eq!(store.key_map("lasting").get("d"), Some(&"r".to_string()));
    assert_eq!(store.purge_expired(100), Vec::<String>::new());
}

#[test]
fn key_maps_belong_to_sessions() {
    let mut store = new_store();
    let mut keys = StrMap::new();
    keys.insert("d".to_string(), "r".to_string());
    assert!(!store.set_key_map("s", keys.copy()));
    store.create(make_session("s", "1")).unwrap();
    assert!(store.set_key_map("s", keys));
    assert_eq!(store.key_map("s").get("d"), Some(&"r".to_string()));
    store.delete("s").unwrap();
    assert!(store.key_map("s").is_empty());
}

#[test]
fn kinds_that_are_unknown_count_in_the_total_only() {
    let mut store = new_store();
    assert!(store.can_record("s", 1, u64::MAX));
    store.record_stats("s", "other", 1, u64::MAX);
    let stats = store.get_stats("s").unwrap();
    assert_eq!(
        stats,
        SessionStats {
            requests_total: 1,
            requests_mitm: 0,
            requests_tunnel: 0,
            requests_dropped: 0,
            bytes_upstream: 1,
            bytes_downstream: u64::MAX,
        }
    );
    assert!(!store.can_record("s", 0, 1));
    assert_eq!(SessionStats::default().requests_total, 0);
}

#[test]
fn what_is_told_of_a_session_has_no_key() {
    let mut session = make_session("s", "1");
    session.created_at = 1751908626;
    session.expires_at = Some(1751908627);
    let told = SessionResponse::from_session(&session);
    assert_eq!(told.created_at, "2025-07-07T17:17:06Z");
    assert_eq!(told.expires_at, Some("2025-07-07T17:17:07Z".to_string()));
    assert!(told.stats.is_none());
    assert!(told.dummy_keys.is_none());
    session.created_at = 0;
    session.expires_at = None;
    let line = SessionSummary::from_session(&session);
    assert_eq!(line.created_at, "");
    assert_eq!(line.expires_at, None);
}

#[test]
fn session_errors_have_their_texts() {
    let s = || "x".to_string();
    assert_eq!(SessionError::Sqlite(s()).message(), "sqlite: x");
    assert_eq!(SessionError::Json(s()).message(), "json: x");
    assert_eq!(
        SessionError::AlreadyExists(s()).message(),
        "session already exists: x"
    );
    assert_eq!(SessionError::NotFound(s()).message(), "session not found: x");
    assert_eq!(
        SessionError::Invalid(s()).message(),
        "invalid session data: x"
    );
}
