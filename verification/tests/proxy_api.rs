//! The session interface and `CONNECT` requests.

use agent_env::clock::now_secs;
use agent_env::proxy::api::{
    connect_only, handle_delete_session, handle_get_session, handle_health, handle_list_sessions,
    route, unknown_route, Route,
};
use agent_env::proxy::connect::{
    address, connect_target, forward, judge, split_target, upstream_address, Forward, Ruling,
};
use agent_env::proxy::recover::{recover_keys, restore_keys};
use agent_env::proxy::register::{
    enrol, fetch_all, handle_create_session, look_up, prepare, refs_needed, refused, register,
    resolve, session_asked_for, RequestBody, Stored,
};
use agent_env::proxy::reply::{error_response, error_response_with_detail, Reply, ReplyBody};
use agent_env::session::store::{SessionRow, SessionStore};
use agent_env::session::{AllowlistEntry, CreateSessionRequest, SessionError, SessionResponse};
use agent_env::single_key;
use agent_env::vault::{KeyPair, MockSecretStore, SecretStoreError};

fn entry(domain: &str, mode: &str, credential_ref: Option<&str>) -> AllowlistEntry {
    AllowlistEntry {
        domain: domain.to_string(),
        mode: mode.to_string(),
        credential_ref: credential_ref.map(|s| s.to_string()),
    }
}

fn request(id: &str, ip: &str, allowlist: Vec<AllowlistEntry>) -> RequestBody {
    RequestBody::Parsed(CreateSessionRequest {
        session_id: id.to_string(),
        source_ip: ip.to_string(),
        allowlist,
        expires_at: None,
    })
}

fn new_store() -> SessionStore {
    SessionStore::in_memory().ok().unwrap()
}

fn create(store: &mut SessionStore, secrets: &MockSecretStore, body: RequestBody) -> Reply {
    handle_create_session(store, Some(secrets), body, now_secs())
}

fn text(reply: &Reply) -> String {
    match &reply.body {
        ReplyBody::Text(s) => s.clone(),
        _ => panic!("expected a text"),
    }
}

fn session(reply: Reply) -> SessionResponse {
    match reply.body {
        ReplyBody::Session(s) => s,
        _ => panic!("expected a session"),
    }
}

#[test]
fn proxy_test_health_endpoint() {
    let store = new_store();
    assert!(matches!(route("GET", "/health"), Route::Health));
    let reply = handle_health(&store, "00:11", 100, 142);
    assert_eq!(reply.status, 200);
    assert_eq!(
        text(&reply),
        r#"{"status":"ok","ca_cert_sha256":"00:11","active_sessions":0,"uptime_secs":42}"#
    );
    // A clock that went back gives 0.
    assert!(text(&handle_health(&store, "", 142, 100)).ends_with("\"uptime_secs\":0}"));
}

#[test]
fn proxy_test_create_and_get_session() {
    let mut secrets = MockSecretStore::new();
    secrets.insert(
        "vault://secret/data/test-key",
        "sk-dum-test",
        "sk-real-test",
    );
    let mut store = new_store();
    let body = request(
        "sess_test1",
        "10.0.1.42",
        vec![entry("api.openai.com", "mitm", Some("vault://secret/data/test-key"))],
    );
    let reply = create(&mut store, &secrets, body);
    assert_eq!(reply.status, 201);
    let told = session(reply);
    assert_eq!(told.session_id, "sess_test1");
    assert_eq!(told.source_ip, "10.0.1.42");
    let dummy = told.dummy_keys.unwrap();
    assert_eq!(
        dummy.get("vault://secret/data/test-key"),
        Some(&"sk-dum-test".to_string())
    );
    assert_eq!(
        store.key_map("sess_test1").get("sk-dum-test"),
        Some(&"sk-real-test".to_string())
    );
    assert_eq!(store.get("sess_test1").unwrap().api_key, None);

    let reply = handle_get_session(&store, "sess_test1");
    assert_eq!(reply.status, 200);
    let told = session(reply);
    assert_eq!(told.session_id, "sess_test1");
    assert!(told.stats.is_none());
    store.record_stats("sess_test1", "mitm", 1, 2);
    assert_eq!(session(handle_get_session(&store, "sess_test1")).stats.unwrap().requests_mitm, 1);

    let reply = handle_list_sessions(&store);
    assert_eq!(reply.status, 200);
    match reply.body {
        ReplyBody::Sessions(l) => {
            assert_eq!(l.sessions.len(), 1);
            assert_eq!(l.sessions[0].session_id, "sess_test1");
        }
        _ => panic!("expected a list"),
    }
}

#[test]
fn proxy_test_delete_session() {
    let secrets = MockSecretStore::new();
    let mut store = new_store();
    let body = request(
        "sess_del",
        "10.0.1.50",
        vec![entry("api.openai.com", "tunnel", None)],
    );
    create(&mut store, &secrets, body);

    let reply = handle_delete_session(&mut store, "sess_del", Ok(()));
    assert_eq!(reply.status, 204);
    assert!(matches!(reply.body, ReplyBody::Empty));
    assert_eq!(reply.content_type(), None);
    assert_eq!(error_response(404, "x", "y").content_type(), Some("application/json"));

    let reply = handle_get_session(&store, "sess_del");
    assert_eq!(reply.status, 404);
    assert_eq!(
        text(&reply),
        r#"{"error":{"code":"SESSION_NOT_FOUND","message":"session not found: sess_del"}}"#
    );
    assert_eq!(handle_delete_session(&mut store, "sess_del", Ok(())).status, 404);
}

#[test]
fn proxy_test_create_session_invalid_credential_ref() {
    let secrets = MockSecretStore::new();
    let mut store = new_store();
    let body = request(
        "sess_bad",
        "10.0.1.60",
        vec![entry("api.openai.com", "mitm", Some("vault://secret/data/nonexistent"))],
    );
    let reply = create(&mut store, &secrets, body);
    assert_eq!(reply.status, 422);
    assert_eq!(
        text(&reply),
        r#"{"error":{"code":"CREDENTIAL_REF_INVALID","message":"failed to resolve credential reference","detail":"credential ref not found: vault://secret/data/nonexistent"}}"#
    );
    assert_eq!(store.count(), 0);
}

#[test]
fn proxy_test_create_session_duplicate() {
    let secrets = MockSecretStore::new();
    let mut store = new_store();
    let list = || vec![entry("api.openai.com", "tunnel", None)];
    create(&mut store, &secrets, request("sess_dup", "10.0.1.70", list()));
    let reply = create(&mut store, &secrets, request("sess_dup", "10.0.1.71", list()));
    assert_eq!(reply.status, 409);
    assert_eq!(
        text(&reply),
        r#"{"error":{"code":"SESSION_EXISTS","message":"session already exists: sess_dup"}}"#
    );
    let reply = create(&mut store, &secrets, request("sess_other", "10.0.1.70", list()));
    assert_eq!(reply.status, 409);
    assert!(text(&reply).contains("session already exists: 10.0.1.70"));
    assert_eq!(store.count(), 1);
}

#[test]
fn proxy_test_connect_unregistered_ip_403() {
    let store = new_store();
    let (host, port) = split_target("api.openai.com:443");
    assert_eq!((host.as_str(), port), ("api.openai.com", 443));
    let ruling = judge(&store, Some("127.0.0.1"), &host);
    assert!(matches!(ruling, Ruling::NoSession));
    assert_eq!(ruling.status(), 403);
    assert_eq!(judge(&store, None, &host).status(), 403);
}

#[test]
fn proxy_test_connect_non_allowlisted_domain_403() {
    let secrets = MockSecretStore::new();
    let mut store = new_store();
    let body = request(
        "sess_allow",
        "127.0.0.1",
        vec![entry("api.openai.com", "tunnel", None)],
    );
    create(&mut store, &secrets, body);
    let ruling = judge(&store, Some("127.0.0.1"), "evil.com");
    assert_eq!(ruling.status(), 403);
    assert_eq!(ruling.kind(), "dropped");
    match ruling {
        Ruling::NotAllowed(id) => assert_eq!(id, "sess_allow"),
        _ => panic!("expected NotAllowed"),
    }
}

#[test]
fn proxy_test_full_lifecycle() {
    let secrets = MockSecretStore::new();
    let mut store = new_store();
    let body = request(
        "sess_life",
        "127.0.0.1",
        vec![entry("api.openai.com", "tunnel", None)],
    );
    assert_eq!(create(&mut store, &secrets, body).status, 201);
    let ruling = judge(&store, Some("127.0.0.1"), "API.OpenAI.com");
    assert_eq!(ruling.status(), 200);
    assert_eq!(ruling.kind(), "tunnel");
    assert!(matches!(ruling, Ruling::Tunnel(_)));
    assert_eq!(handle_delete_session(&mut store, "sess_life", Ok(())).status, 204);
    assert_eq!(judge(&store, Some("127.0.0.1"), "api.openai.com").status(), 403);
}

#[test]
fn mitm_ruling_carries_the_keys_of_the_session() {
    let mut secrets = MockSecretStore::new();
    secrets.insert("r1", "d1", "k1");
    secrets.insert("r2", "d2", "k2");
    let mut store = new_store();
    let list = vec![
        entry("A.com", "mitm", Some("r1")),
        entry("a.com", "tunnel", None),
        entry("b.com", "mitm", Some("r2")),
        entry("c.com", "other", Some("missing")),
    ];
    assert_eq!(create(&mut store, &secrets, request("s", "1", list)).status, 201);
    for host in ["a.COM", "b.com", "c.com"] {
        let ruling = judge(&store, Some("1"), host);
        assert_eq!(ruling.kind(), "mitm");
        assert_eq!(ruling.status(), 200);
        match ruling {
            Ruling::Mitm(id, keys) => {
                assert_eq!(id, "s");
                assert_eq!(keys.len(), 2);
                assert_eq!(keys.get("d1"), Some(&"k1".to_string()));
                assert_eq!(keys.get("d2"), Some(&"k2".to_string()));
            }
            _ => panic!("expected Mitm"),
        }
    }
}

#[test]
fn requests_that_are_not_valid_are_refused() {
    let secrets = MockSecretStore::new();
    let mut store = new_store();
    let list = || vec![entry("a", "tunnel", None)];
    let cases = vec![
        (RequestBody::Unreadable, "failed to read request body"),
        (RequestBody::Malformed("eof".to_string()), "malformed JSON: eof"),
        (request("", "1", list()), "session_id is required"),
        (request("s", "", list()), "source_ip is required"),
        (request("s", "1", vec![]), "allowlist is required"),
        (
            request("s", "1", vec![entry("a", "mitm", None)]),
            "credential_ref is required for mitm mode",
        ),
    ];
    for (body, message) in cases {
        let reply = create(&mut store, &secrets, body);
        assert_eq!(reply.status, 400);
        assert_eq!(
            text(&reply),
            format!(r#"{{"error":{{"code":"INVALID_REQUEST","message":"{message}"}}}}"#)
        );
    }
    assert_eq!(store.count(), 0);
}

#[test]
fn times_in_requests() {
    let body = |expires: Option<&str>| {
        RequestBody::Parsed(CreateSessionRequest {
            session_id: "s".to_string(),
            source_ip: "1".to_string(),
            allowlist: vec![entry("a", "tunnel", None)],
            expires_at: expires.map(|s| s.to_string()),
        })
    };
    let s = session_asked_for(body(Some("1970-01-01T00:01:00Z")), 7).ok().unwrap();
    assert_eq!((s.created_at, s.expires_at), (7, Some(60)));
    // What is no time is passed over.
    let s = session_asked_for(body(Some("soon")), 7).ok().unwrap();
    assert_eq!(s.expires_at, None);
    let s = session_asked_for(body(None), 7).ok().unwrap();
    assert_eq!(s.expires_at, None);
}

#[test]
fn without_secret_store_nothing_is_looked_up() {
    let mut store = new_store();
    let body = request("s", "1", vec![entry("a", "mitm", Some("r"))]);
    let none: Option<&MockSecretStore> = None;
    let reply = handle_create_session(&mut store, none, body, 1);
    assert_eq!(reply.status, 201);
    assert!(session(reply).dummy_keys.is_none());
    assert!(store.key_map("s").is_empty());
}

#[test]
fn lookups_stop_at_the_first_failure() {
    let mut secrets = MockSecretStore::new();
    secrets.insert("a", "da", "ka");
    let list = vec![
        entry("1", "mitm", Some("a")),
        entry("2", "tunnel", Some("x")),
        entry("3", "mitm", Some("b")),
        entry("4", "mitm", Some("c")),
    ];
    let refs = refs_needed(&list);
    assert_eq!(refs, vec!["a", "b", "c"]);
    let outcomes = fetch_all(&secrets, &refs);
    assert_eq!(outcomes.len(), 2);
    assert!(outcomes[0].is_ok());
    let reply = resolve(&refs, &outcomes).err().unwrap();
    assert_eq!(reply.status, 422);
    assert!(text(&reply).contains("credential ref not found: b"));
}

#[test]
fn each_lookup_failure_is_told() {
    let refs = vec!["r".to_string()];
    for (e, text_of_it) in [
        (SecretStoreError::Invalid("i".to_string()), "credential ref invalid: i"),
        (SecretStoreError::Internal("n".to_string()), "secret store error: n"),
    ] {
        let mut store = new_store();
        let body = request("s", "1", vec![entry("a", "mitm", Some("r"))]);
        let db = Stored {
            id_stored: false,
            ip_stored: false,
            written: Ok(()),
        };
        let reply = register(&mut store, body, 1, &refs, &vec![Err(e)], db);
        assert_eq!(reply.status, 422);
        assert!(text(&reply).contains(text_of_it));
        assert_eq!(store.count(), 0);
    }
}

#[test]
fn the_last_of_two_lookups_of_one_reference_counts() {
    let pair = |d: &str, r: &str| {
        Ok(KeyPair {
            dummy: d.to_string(),
            real: r.to_string(),
        })
    };
    let refs = vec!["r".to_string(), "r".to_string()];
    let keys = resolve(&refs, &vec![pair("d1", "k1"), pair("d2", "k2")]).ok().unwrap();
    assert_eq!(keys.dummy_keys.get("r"), Some(&"d2".to_string()));
    assert_eq!(keys.dummy_to_real.len(), 1);
    assert_eq!(keys.dummy_to_real.get("d2"), Some(&"k2".to_string()));
}

#[test]
fn a_session_that_could_not_be_written_is_not_taken_in() {
    let mut store = new_store();
    let body = request("s", "1", vec![entry("a", "tunnel", None)]);
    let s = session_asked_for(body, 1).ok().unwrap();
    let keys = resolve(&vec![], &vec![]).ok().unwrap();
    let reply = enrol(&mut store, s, keys, Err("disk \"full\"".to_string()));
    assert_eq!(reply.status, 500);
    assert_eq!(
        text(&reply),
        r#"{"error":{"code":"INTERNAL_ERROR","message":"sqlite: disk \"full\""}}"#
    );
    assert_eq!(store.count(), 0);
    assert_eq!(refused(&SessionError::Json("j".to_string())).status, 500);
}

#[test]
fn a_session_that_could_not_be_erased_stays() {
    let secrets = MockSecretStore::new();
    let mut store = new_store();
    create(&mut store, &secrets, request("s", "1", vec![entry("a", "tunnel", None)]));
    let reply = handle_delete_session(&mut store, "s", Err("locked".to_string()));
    assert_eq!(reply.status, 500);
    assert!(text(&reply).contains("sqlite: locked"));
    assert_eq!(store.count(), 1);
}

#[test]
fn routes_of_the_session_interface() {
    assert!(matches!(route("POST", "/sessions"), Route::Create));
    assert!(matches!(route("GET", "/sessions"), Route::List));
    assert!(matches!(route("GET", "/sessions/"), Route::Unknown));
    assert!(matches!(route("PUT", "/sessions/x"), Route::Unknown));
    assert!(matches!(route("POST", "/health"), Route::Unknown));
    match route("GET", "/sessions/a/b") {
        Route::Get(id) => assert_eq!(id, "a/b"),
        r => panic!("expected Get, got {r:?}"),
    }
    match route("DELETE", "/sessions/a") {
        Route::Delete(id) => assert_eq!(id, "a"),
        r => panic!("expected Delete, got {r:?}"),
    }
    assert_eq!(unknown_route().status, 404);
    assert_eq!(
        text(&unknown_route()),
        r#"{"error":{"code":"INVALID_REQUEST","message":"unknown route"}}"#
    );
    assert_eq!(connect_only().status, 403);
}

/// The texts in the envelope of an error, read by a JSON parser.
fn envelope(reply: &Reply) -> (String, String, Option<String>) {
    let v: serde_json::Value = serde_json::from_str(&text(reply)).unwrap();
    let field = |name: &str| v["error"][name].as_str().map(|s| s.to_string());
    (field("code").unwrap(), field("message").unwrap(), field("detail"))
}

#[test]
fn errors_are_json_whatever_the_message() {
    let reply = error_response(400, "INVALID_REQUEST", "a\\d");
    assert_eq!(reply.status, 400);
    assert_eq!(
        text(&reply),
        r#"{"error":{"code":"INVALID_REQUEST","message":"a\\d"}}"#
    );
    let reply = error_response(400, "C", "a\"b\n\u{1f}");
    assert_eq!(
        text(&reply),
        r#"{"error":{"code":"C","message":"a\"b\u000a\u001f"}}"#
    );
    let mut all: String = ('\0'..='\u{ff}').collect();
    all.push_str("\\\"\\n\u{2028}\u{fffd}");
    let reply = error_response(400, "C", &all);
    assert_eq!(envelope(&reply), ("C".to_string(), all.clone(), None));
    let reply = error_response_with_detail(422, "C", "m\\", &all);
    assert_eq!(
        envelope(&reply),
        ("C".to_string(), "m\\".to_string(), Some(all))
    );
    let mut store = new_store();
    let body = RequestBody::Malformed("invalid type: string \"a\\\\b\"".to_string());
    let reply = create(&mut store, &MockSecretStore::new(), body);
    assert_eq!(envelope(&reply).1, "malformed JSON: invalid type: string \"a\\\\b\"");
}

#[test]
fn targets_and_addresses() {
    assert_eq!(connect_target("h", Some(8443), "u"), "h:8443");
    assert_eq!(connect_target("h", None, "u"), "h:443");
    assert_eq!(connect_target("", Some(1), "u:2"), "u:2");
    for (target, host, port) in [
        ("h:8443", "h", 8443),
        ("h", "h", 443),
        ("h:", "h", 443),
        ("h:70000", "h", 443),
        ("a:b:1", "a:b", 1),
        ("h:+5", "h", 5),
    ] {
        assert_eq!(split_target(target), (host.to_string(), port));
    }
    assert_eq!(split_target(&address("::1", 65535)), ("::1".to_string(), 65535));
    assert_eq!(upstream_address("h", 443, "", 0), "h:443");
    assert_eq!(upstream_address("h", 443, "127.0.0.1", 9443), "127.0.0.1:9443");
    assert_eq!(upstream_address("h", 443, "", 80), "h:80");
}

#[test]
fn allowlist_exact_match() {
    let allowlist = vec!["api.openai.com".to_string()];
    assert!(single_key::connect::is_allowlisted(&allowlist, "api.openai.com"));
    assert!(!single_key::connect::is_allowlisted(&allowlist, "evil.com"));
}

#[test]
fn hosts_match_up_to_case_beyond_ascii() {
    let allowlist = vec!["BÜCHER.example".to_string()];
    assert!(single_key::connect::is_allowlisted(&allowlist, "bücher.EXAMPLE"));
}

#[test]
fn one_list_and_one_key_for_all() {
    let allowlist = vec!["a.com".to_string()];
    match single_key::connect::judge_by_list(&allowlist, "sk", "A.com") {
        single_key::connect::Ruling::Mitm(key) => assert_eq!(key, "sk"),
        v => panic!("expected Mitm, got {v:?}"),
    }
    let v = single_key::connect::judge_by_list(&allowlist, "sk", "b.com");
    assert_eq!(v.status(), 403);
}

#[test]
fn one_key_for_each_session() {
    let mut secrets = single_key::vault::MockSecretStore::new();
    secrets.insert("r1", "k1");
    secrets.insert("r2", "k2");
    let mut store = new_store();
    let list = vec![
        entry("t.com", "tunnel", None),
        entry("a.com", "mitm", Some("r2")),
        entry("b.com", "mitm", Some("r1")),
    ];
    let body = request("s", "1", list);
    let reply = single_key::register::handle_create_session(&mut store, Some(&secrets), body, 1);
    assert_eq!(reply.status, 201);
    assert!(session(reply).dummy_keys.is_none());
    assert_eq!(store.get("s").unwrap().api_key, Some("k2".to_string()));
    let judge = |peer: Option<&str>, host: &str| {
        single_key::connect::judge_by_session(&store, peer, host, "global")
    };
    assert!(matches!(judge(Some("1"), "t.com"), single_key::connect::Ruling::Tunnel));
    assert!(matches!(judge(Some("2"), "t.com"), single_key::connect::Ruling::NoSession));
    assert!(matches!(judge(None, "t.com"), single_key::connect::Ruling::NoSession));
    assert_eq!(judge(Some("1"), "x.com").status(), 403);
    match judge(Some("1"), "b.com") {
        single_key::connect::Ruling::Mitm(key) => assert_eq!(key, "k2"),
        v => panic!("expected Mitm, got {v:?}"),
    }
}

#[test]
fn a_session_without_key_uses_the_one_for_all() {
    let mut store = new_store();
    let none: Option<&single_key::vault::MockSecretStore> = None;
    let body = request("s", "1", vec![entry("a.com", "mitm", Some("r"))]);
    single_key::register::handle_create_session(&mut store, none, body, 1);
    assert_eq!(store.get("s").unwrap().api_key, None);
    match single_key::connect::judge_by_session(&store, Some("1"), "a.com", "global") {
        single_key::connect::Ruling::Mitm(key) => assert_eq!(key, "global"),
        v => panic!("expected Mitm, got {v:?}"),
    }
}

#[test]
fn single_key_registration_refuses() {
    let secrets = single_key::vault::MockSecretStore::new();
    let mut store = new_store();
    let bad = request("s", "1", vec![entry("a", "mitm", Some("missing"))]);
    let reply = single_key::register::handle_create_session(&mut store, Some(&secrets), bad, 1);
    assert_eq!(reply.status, 422);
    let good = || request("s", "1", vec![entry("a", "tunnel", None)]);
    let reply = single_key::register::handle_create_session(&mut store, Some(&secrets), good(), 1);
    assert_eq!(reply.status, 201);
    let reply = single_key::register::handle_create_session(&mut store, Some(&secrets), good(), 1);
    assert_eq!(reply.status, 409);
    let reply = single_key::register::handle_create_session(
        &mut store,
        Some(&secrets),
        RequestBody::Unreadable,
        1,
    );
    assert_eq!(reply.status, 400);
    assert_eq!(single_key::register::sessions_disabled().status, 404);
}

/// Registers a session with one key pair, and gives what becomes of a request of its
/// machine to the host that the pair is for.
fn through_the_proxy(id: &str, dummy: &str, key: &str, request_text: &str) -> Forward {
    let mut secrets = MockSecretStore::new();
    secrets.insert("vault://secret/data/openai-key", dummy, key);
    let mut store = new_store();
    let list = vec![entry("api.openai.com", "mitm", Some("vault://secret/data/openai-key"))];
    assert_eq!(create(&mut store, &secrets, request(id, "127.0.0.1", list)).status, 201);
    let (host, port) = split_target("api.openai.com:443");
    assert_eq!(port, 443);
    match judge(&store, Some("127.0.0.1"), &host) {
        Ruling::Mitm(session_id, keys) => {
            assert_eq!(session_id, id);
            forward(request_text.as_bytes().to_vec(), &keys, &host)
        }
        _ => panic!("expected Mitm"),
    }
}

#[test]
fn test_mitm_key_swap() {
    let sent = "GET /v1/models HTTP/1.1\r\nHost: api.openai.com\r\nAuthorization: Bearer sk-dummy-test\r\nConnection: close\r\n\r\n";
    match through_the_proxy("sess_mitm_swap", "sk-dummy-test", "sk-real-test", sent) {
        Forward::Rewritten(captured) => {
            let captured_str = String::from_utf8_lossy(&captured).to_string();
            assert!(
                captured_str.contains("Authorization: Bearer sk-real-test"),
                "upstream should receive the real key: {captured_str}"
            );
            assert!(
                !captured_str.contains("sk-dummy-test"),
                "upstream should NOT see the dummy key: {captured_str}"
            );
        }
        _ => panic!("upstream should have received a request"),
    }
}

#[test]
fn test_mitm_unknown_dummy_key_403() {
    let sent = "GET /v1/models HTTP/1.1\r\nHost: api.openai.com\r\nAuthorization: Bearer sk-dummy-unknown\r\nConnection: close\r\n\r\n";
    match through_the_proxy("sess_mitm_unknown", "sk-dummy-known", "sk-real-known", sent) {
        Forward::Refused(reply) => assert!(
            String::from_utf8_lossy(&reply).contains("403"),
            "proxy should return 403 for unknown dummy key"
        ),
        _ => panic!("upstream should not receive a request for unknown dummy key"),
    }
}

#[test]
fn test_mitm_no_auth_header_403() {
    let sent = "GET /v1/models HTTP/1.1\r\nHost: api.openai.com\r\nConnection: close\r\n\r\n";
    match through_the_proxy("sess_mitm_noauth", "sk-dummy-test", "sk-real-test", sent) {
        Forward::Refused(reply) => assert!(
            String::from_utf8_lossy(&reply).contains("403"),
            "proxy should return 403 for missing Authorization header"
        ),
        _ => panic!("upstream should not receive a request with no auth header"),
    }
}

#[test]
fn replies_do_not_depend_on_real_keys() {
    let told = |key: &str| {
        let mut secrets = MockSecretStore::new();
        secrets.insert("r", "d", key);
        let mut store = new_store();
        let body = request("s", "1", vec![entry("a", "mitm", Some("r"))]);
        let s = session(handle_create_session(&mut store, Some(&secrets), body, 7));
        (s.session_id, s.created_at, s.dummy_keys.unwrap().get("r").cloned())
    };
    assert_eq!(told("one"), told("two"));
}

#[test]
fn ended_sessions_reach_nothing() {
    let secrets = MockSecretStore::new();
    let mut store = new_store();
    let body = RequestBody::Parsed(CreateSessionRequest {
        session_id: "s".to_string(),
        source_ip: "1".to_string(),
        allowlist: vec![entry("a.com", "tunnel", None)],
        expires_at: Some("1970-01-01T00:01:00Z".to_string()),
    });
    create(&mut store, &secrets, body);
    assert_eq!(judge(&store, Some("1"), "a.com").status(), 200);
    store.purge_expired(60);
    assert_eq!(judge(&store, Some("1"), "a.com").status(), 200);
    store.purge_expired(61);
    assert_eq!(judge(&store, Some("1"), "a.com").status(), 403);
}

#[test]
fn sessions_of_different_machines_are_apart() {
    let mut secrets = MockSecretStore::new();
    secrets.insert("r1", "d1", "k1");
    secrets.insert("r2", "d2", "k2");
    let mut store = new_store();
    create(&mut store, &secrets, request("s1", "1", vec![entry("a", "mitm", Some("r1"))]));
    create(&mut store, &secrets, request("s2", "2", vec![entry("b", "mitm", Some("r2"))]));
    assert_eq!(judge(&store, Some("1"), "b").status(), 403);
    assert_eq!(judge(&store, Some("2"), "a").status(), 403);
    match judge(&store, Some("1"), "a") {
        Ruling::Mitm(_, keys) => {
            assert_eq!(keys.len(), 1);
            assert!(keys.get("d2").is_none());
        }
        _ => panic!("expected Mitm"),
    }
    handle_delete_session(&mut store, "s2", Ok(()));
    assert_eq!(judge(&store, Some("1"), "a").status(), 200);
}

#[test]
fn registering_goes_by_the_answers_of_the_database() {
    let list = || vec![entry("a", "mitm", Some("r"))];
    let mut secrets = MockSecretStore::new();
    secrets.insert("r", "d", "k");
    for (id_stored, ip_stored, what) in [
        (true, true, "session already exists: s"),
        (false, true, "session already exists: 1"),
    ] {
        let store = new_store();
        let body = request("s", "1", list());
        assert_eq!(body.names(), Some(("s", "1")));
        let (refs, outcomes) = look_up(Some(&secrets), &body);
        let r = prepare(&store, body, 7, &refs, &outcomes, id_stored, ip_stored);
        let reply = r.err().unwrap();
        assert_eq!(reply.status, 409);
        assert_eq!(envelope(&reply).1, what);
    }
    let mut store = new_store();
    let body = request("s", "1", list());
    let (refs, outcomes) = look_up(Some(&secrets), &body);
    let pending = prepare(&store, body, 7, &refs, &outcomes, false, false).ok().unwrap();
    assert_eq!(pending.row().session_id, "s");
    assert_eq!(pending.row().created_at, 7);
    assert_eq!(store.count(), 0);
    let reply = pending.finish(&mut store, Ok(()));
    assert_eq!(reply.status, 201);
    assert_eq!(store.key_map("s").get("d"), Some(&"k".to_string()));
    let body = request("t", "2", list());
    let (refs, outcomes) = look_up(Some(&secrets), &body);
    let db = Stored {
        id_stored: false,
        ip_stored: false,
        written: Err("full".to_string()),
    };
    let reply = register(&mut store, body, 7, &refs, &outcomes, db);
    assert_eq!(reply.status, 500);
    assert_eq!(store.count(), 1);
    assert_eq!(RequestBody::Unreadable.names(), None);
}

#[test]
fn keys_are_looked_up_again_after_a_restart() {
    let mut secrets = MockSecretStore::new();
    secrets.insert("r1", "d1", "k1");
    secrets.insert("r2", "d2", "k2");
    let mut store = new_store();
    create(&mut store, &secrets, request("s1", "1", vec![entry("a", "mitm", Some("r1"))]));
    let list = vec![
        entry("a", "mitm", Some("gone")),
        entry("b", "mitm", Some("r2")),
        entry("c", "tunnel", Some("r1")),
    ];
    secrets.insert("gone", "d3", "k3");
    create(&mut store, &secrets, request("s2", "2", list));
    let rows: Vec<SessionRow> = store.list().iter().map(SessionRow::of_session).collect();

    let (mut store, _) = SessionStore::open(&rows, 0);
    assert!(store.key_map("s1").is_empty());
    let mut secrets = MockSecretStore::new();
    secrets.insert("r1", "d1", "k1");
    secrets.insert("r2", "d2", "new");
    recover_keys(&mut store, &secrets);
    assert_eq!(store.count(), 2);
    assert_eq!(store.key_map("s1").len(), 1);
    assert_eq!(store.key_map("s1").get("d1"), Some(&"k1".to_string()));
    assert_eq!(store.key_map("s2").len(), 1);
    assert_eq!(store.key_map("s2").get("d2"), Some(&"new".to_string()));

    let (mut store, _) = SessionStore::open(&rows[..1].iter().map(|r| SessionRow::of_session(&r.to_session())).collect(), 0);
    let pair = KeyPair {
        dummy: "x".to_string(),
        real: "y".to_string(),
    };
    restore_keys(&mut store, &vec![vec![Ok(pair)]]);
    assert_eq!(store.key_map("s1").get("x"), Some(&"y".to_string()));
}

#[test]
fn single_keys_are_looked_up_again_after_a_restart() {
    let mut secrets = single_key::vault::MockSecretStore::new();
    secrets.insert("r1", "k1");
    let mut store = new_store();
    for (id, ip, r) in [("s1", "1", "r1"), ("s2", "2", "gone")] {
        let s = session_asked_for(request(id, ip, vec![entry("a", "mitm", Some(r))]), 1);
        store.create(s.ok().unwrap()).unwrap();
    }
    single_key::recover::recover_keys(&mut store, &secrets);
    assert_eq!(store.get("s1").unwrap().api_key, Some("k1".to_string()));
    assert_eq!(store.get("s2").unwrap().api_key, None);
}
