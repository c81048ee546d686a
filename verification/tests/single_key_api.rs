//! The session interface and `CONNECT` requests, with one key for each session.

use agent_env::clock::now_secs;
use agent_env::proxy::api::{
    handle_delete_session, handle_get_session, handle_health, handle_list_sessions, route, Route,
};
use agent_env::proxy::connect::split_target;
use agent_env::proxy::register::RequestBody;
use agent_env::proxy::reply::{Reply, ReplyBody};
use agent_env::session::store::SessionStore;
use agent_env::session::{AllowlistEntry, CreateSessionRequest, SessionResponse};
use agent_env::single_key::connect::{judge_by_session, Ruling};
use agent_env::single_key::register::handle_create_session;
use agent_env::single_key::vault::MockSecretStore;

fn new_store() -> SessionStore {
    SessionStore::in_memory().ok().unwrap()
}

fn create(
    store: &mut SessionStore,
    secrets: &MockSecretStore,
    id: &str,
    ip: &str,
    mode: &str,
    credential_ref: Option<&str>,
) -> Reply {
    let body = RequestBody::Parsed(CreateSessionRequest {
        session_id: id.to_string(),
        source_ip: ip.to_string(),
        allowlist: vec![AllowlistEntry {
            domain: "api.openai.com".to_string(),
            mode: mode.to_string(),
            credential_ref: credential_ref.map(|s| s.to_string()),
        }],
        expires_at: None,
    });
    handle_create_session(store, Some(secrets), body, now_secs())
}

fn text(reply: &Reply) -> String {
    match &reply.body {
        ReplyBody::Text(s) => s.clone(),
        _ => panic!("expected a text"),
    }
}

fn session(reply: Reply) -> SessionResponse {
    match reply.body {
        ReplyBody::Session(s) => s,
        _ => panic!("expected a session"),
    }
}

fn connect(store: &SessionStore, target: &str) -> Ruling {
    let (host, _) = split_target(target);
    judge_by_session(store, Some("127.0.0.1"), &host, "")
}

#[test]
fn test_health_endpoint() {
    assert!(matches!(route("GET", "/health"), Route::Health));
    let reply = handle_health(&new_store(), "ab:cd", now_secs(), now_secs());
    assert_eq!(reply.status, 200);
    let body = text(&reply);
    assert!(body.contains("\"status\":\"ok\""));
    assert!(body.contains("\"ca_cert_sha256\""));
    assert!(body.contains("\"active_sessions\":0"));
    assert!(body.contains("\"uptime_secs\""));
}

#[test]
fn test_create_and_get_session() {
    let mut secrets = MockSecretStore::new();
    secrets.insert("vault://secret/data/test-key", "sk-test-key");
    let mut store = new_store();
    let reply = create(
        &mut store,
        &secrets,
        "sess_test1",
        "10.0.1.42",
        "mitm",
        Some("vault://secret/data/test-key"),
    );
    assert_eq!(reply.status, 201);
    let told = session(reply);
    assert_eq!(told.session_id, "sess_test1");
    assert_eq!(told.source_ip, "10.0.1.42");

    let reply = handle_get_session(&store, "sess_test1");
    assert_eq!(reply.status, 200);
    assert_eq!(session(reply).session_id, "sess_test1");

    let reply = handle_list_sessions(&store);
    assert_eq!(reply.status, 200);
    match reply.body {
        ReplyBody::Sessions(l) => assert_eq!(l.sessions[0].session_id, "sess_test1"),
        _ => panic!("expected a list"),
    }
}

#[test]
fn test_delete_session() {
    let secrets = MockSecretStore::new();
    let mut store = new_store();
    create(&mut store, &secrets, "sess_del", "10.0.1.50", "tunnel", None);
    assert_eq!(handle_delete_session(&mut store, "sess_del", Ok(())).status, 204);
    let reply = handle_get_session(&store, "sess_del");
    assert_eq!(reply.status, 404);
    assert!(text(&reply).contains("SESSION_NOT_FOUND"));
}

#[test]
fn test_create_session_invalid_credential_ref() {
    let secrets = MockSecretStore::new();
    let mut store = new_store();
    let reply = create(
        &mut store,
        &secrets,
        "sess_bad",
        "10.0.1.60",
        "mitm",
        Some("vault://secret/data/nonexistent"),
    );
    assert_eq!(reply.status, 422);
    assert!(text(&reply).contains("CREDENTIAL_REF_INVALID"));
}

#[test]
fn test_create_session_duplicate() {
    let secrets = MockSecretStore::new();
    let mut store = new_store();
    create(&mut store, &secrets, "sess_dup", "10.0.1.70", "tunnel", None);
    let reply = create(&mut store, &secrets, "sess_dup", "10.0.1.71", "tunnel", None);
    assert_eq!(reply.status, 409);
    assert!(text(&reply).contains("SESSION_EXISTS"));
}

#[test]
fn test_connect_unregistered_ip_403() {
    assert_eq!(connect(&new_store(), "api.openai.com:443").status(), 403);
}

#[test]
fn test_connect_non_allowlisted_domain_403() {
    let secrets = MockSecretStore::new();
    let mut store = new_store();
    create(&mut store, &secrets, "sess_allow", "127.0.0.1", "tunnel", None);
    assert_eq!(connect(&store, "evil.com:443").status(), 403);
}

#[test]
fn test_full_lifecycle() {
    let secrets = MockSecretStore::new();
    let mut store = new_store();
    let reply = create(&mut store, &secrets, "sess_life", "127.0.0.1", "tunnel", None);
    assert_eq!(reply.status, 201);
    let after = connect(&store, "api.openai.com:443");
    assert_ne!(after.status(), 403, "CONNECT should not be 403 after registration");
    assert_eq!(handle_delete_session(&mut store, "sess_life", Ok(())).status, 204);
    let after = connect(&store, "api.openai.com:443");
    assert_eq!(after.status(), 403, "CONNECT should be 403 after delete");
}
