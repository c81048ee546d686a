//! Names, rules, addresses and records of the manager.

use agent_env::clock::now_secs;
use agent_env::strmap::StrMap;
use agent_env::vm_manager::api::{
    done_event, force_requested, handle_delete_environment, handle_get_environment,
    handle_list_environments, handle_serial, overdue, route, serial_events, unknown_route, Route,
};
use agent_env::vm_manager::error::{
    json_error, json_error_with_detail, Body, ErrorCode, ErrorResponse, Reply,
};
use agent_env::vm_manager::helpers::{
    extract_session_id, extract_session_id_and_suffix, is_valid_session_id,
};
use agent_env::vm_manager::network::{
    cleanup_nftables, cleanup_tap_interface, nft_table_name, setup_nftables, setup_tap_interface,
    Command, Outcome,
};
use agent_env::vm_manager::state::{Environment, EnvironmentState, VmManagerState};
use agent_env::vm_manager::types::{default_memory_mib, default_timeout_secs, default_vcpus};

fn check_valid_session_ids() {
    assert!(is_valid_session_id("sess_8f7a3b2c"));
    assert!(is_valid_session_id("abcdefgh123456"));
    assert!(is_valid_session_id("test_session_001"));
    assert!(is_valid_session_id(&"a".repeat(64)));
    assert!(!is_valid_session_id("short"));
    assert!(!is_valid_session_id(&"a".repeat(65)));
    assert!(!is_valid_session_id("SESSION-UPPER"));
    assert!(!is_valid_session_id("sess-8f7a3b2c"));
    assert!(!is_valid_session_id("sess.8f7a"));
    assert!(!is_valid_session_id("sess 8f7a3b2c"));
    assert!(!is_valid_session_id(""));
}

fn check_extracting() {
    assert_eq!(
        extract_session_id("/v1/environments/sess_12345678"),
        Some("sess_12345678".to_string())
    );
    assert_eq!(extract_session_id("/v1/environments/"), None);
    assert_eq!(extract_session_id("/v1/environments"), None);
    assert_eq!(extract_session_id("/v1/environments/abc/def"), None);
}

fn check_extracting_with_suffix() {
    assert_eq!(
        extract_session_id_and_suffix("/v1/environments/sess_12345678/serial", "/serial"),
        Some("sess_12345678".to_string())
    );
    assert_eq!(
        extract_session_id_and_suffix("/v1/environments/sess_12345678", "/serial"),
        None
    );
    assert_eq!(
        extract_session_id_and_suffix("/v1/environments/abc/def/serial", "/serial"),
        None
    );
}

fn check_table_names() {
    assert_eq!(nft_table_name("sess_8f7a3b2c"), "ae_vm_sess_8f7a3b2c");
    assert_eq!(nft_table_name("test1234"), "ae_vm_test1234");
    // Invalid chars get replaced
    assert_eq!(nft_table_name("sess.test"), "ae_vm_sess_test");
}

#[test]
fn helpers_test_is_valid_session_id() {
    check_valid_session_ids();
}

#[test]
fn vm_manager_test_is_valid_session_id() {
    check_valid_session_ids();
}

#[test]
fn helpers_test_extract_session_id() {
    check_extracting();
}

#[test]
fn vm_manager_test_extract_session_id() {
    check_extracting();
}

#[test]
fn helpers_test_extract_session_id_and_suffix() {
    check_extracting_with_suffix();
}

#[test]
fn vm_manager_test_extract_session_id_and_suffix() {
    check_extracting_with_suffix();
}

#[test]
fn network_test_nft_table_name() {
    check_table_names();
}

#[test]
fn vm_manager_test_nft_table_name() {
    check_table_names();
}

/// The JSON text of an error.
fn error_json(e: &ErrorResponse) -> String {
    let mut inner = serde_json::Map::new();
    inner.insert("code".to_string(), serde_json::Value::String(e.error.code.clone()));
    inner.insert(
        "message".to_string(),
        serde_json::Value::String(e.error.message.clone()),
    );
    if let Some(d) = &e.error.detail {
        inner.insert("detail".to_string(), serde_json::Value::String(d.clone()));
    }
    let mut outer = serde_json::Map::new();
    outer.insert("error".to_string(), serde_json::Value::Object(inner));
    serde_json::Value::Object(outer).to_string()
}

#[test]
fn error_test_error_response_serialization() {
    let json = error_json(&ErrorResponse::new(ErrorCode::InvalidRequest, "bad request"));
    assert!(json.contains("\"INVALID_REQUEST\""));
    assert!(json.contains("\"bad request\""));
    assert!(!json.contains("\"detail\""));
}

#[test]
fn vm_manager_test_error_response_serialization() {
    let reply = json_error(400, ErrorCode::InvalidRequest, "bad request");
    let json = error_json(&error(reply));
    assert!(json.contains("\"INVALID_REQUEST\""));
    assert!(json.contains("\"bad request\""));
    assert!(!json.contains("\"detail\""));
}

#[test]
fn error_test_error_response_with_detail() {
    let json = error_json(&ErrorResponse::with_detail(
        ErrorCode::VmLaunchFailed,
        "Firecracker failed",
        "exit code 1",
    ));
    assert!(json.contains("\"VM_LAUNCH_FAILED\""));
    assert!(json.contains("\"Firecracker failed\""));
    assert!(json.contains("\"exit code 1\""));
    assert!(json.contains("\"detail\""));
}

#[test]
fn vm_manager_test_error_response_with_detail() {
    let reply = json_error_with_detail(
        500,
        ErrorCode::VmLaunchFailed,
        "Firecracker failed",
        "exit code 1",
    );
    let json = error_json(&error(reply));
    assert!(json.contains("\"VM_LAUNCH_FAILED\""));
    assert!(json.contains("\"Firecracker failed\""));
    assert!(json.contains("\"exit code 1\""));
    assert!(json.contains("\"detail\""));
}

fn error(reply: Reply) -> ErrorResponse {
    match reply.body {
        Body::Error(e) => e,
        _ => panic!("expected an error"),
    }
}

fn check_ip_allocation() {
    let mut state = VmManagerState::with_proxy_socket("/tmp/test.sock");
    let ip1 = state.allocate_ip().unwrap();
    let ip2 = state.allocate_ip().unwrap();
    assert_ne!(ip1, ip2);
    assert!(ip1.starts_with("10.0.1."));
    assert!(ip2.starts_with("10.0.1."));

    // Release and re-allocate
    state.release_ip(&ip1);
    let ip3 = state.allocate_ip().unwrap();
    assert_eq!(ip3, ip1);
}

#[test]
fn state_test_ip_allocation() {
    check_ip_allocation();
}

#[test]
fn vm_manager_test_ip_allocation() {
    check_ip_allocation();
}

fn environment(id: &str, status: EnvironmentState, now: u64) -> Environment {
    Environment {
        session_id: id.to_string(),
        status,
        vm_ip: "10.0.1.2".to_string(),
        tap_interface: "tap-sess_test".to_string(),
        started_at: now,
        expires_at: Some(now + 3600),
        dummy_keys: StrMap::new(),
    }
}

fn check_environment_state_management() {
    let mut state = VmManagerState::with_proxy_socket("/tmp/test.sock");
    let now = now_secs();

    // Insert environment
    state.environments.insert(
        "sess_test1234567".to_string(),
        environment("sess_test1234567", EnvironmentState::Running, now),
    );

    // Verify it exists
    assert!(state.environments.contains_key("sess_test1234567"));
}

#[test]
fn state_test_environment_state_management() {
    check_environment_state_management();
}

#[test]
fn vm_manager_test_environment_state_management() {
    check_environment_state_management();
}

#[test]
fn the_pool_has_64_addresses() {
    let mut state = VmManagerState::new();
    assert_eq!(state.proxy_socket, "/run/ae-proxy.sock");
    let mut seen: Vec<String> = Vec::new();
    for i in 0..64 {
        let ip = state.allocate_ip().unwrap();
        assert_eq!(ip, format!("10.0.1.{}", 2 + 4 * i));
        assert!(!seen.contains(&ip));
        seen.push(ip);
    }
    assert_eq!(state.allocate_ip(), Err("IP pool exhausted".to_string()));
    state.release_ip("10.0.1.42");
    state.release_ip("10.0.1.254");
    state.release_ip("192.168.0.1");
    assert_eq!(state.allocate_ip().unwrap(), "10.0.1.42");
    assert_eq!(state.allocate_ip().unwrap(), "10.0.1.254");
    assert!(state.allocate_ip().is_err());
}

#[test]
fn codes_have_texts_and_statuses() {
    for (code, name, status) in [
        (ErrorCode::InvalidRequest, "INVALID_REQUEST", 400),
        (ErrorCode::SessionNotFound, "SESSION_NOT_FOUND", 404),
        (ErrorCode::ImageNotFound, "IMAGE_NOT_FOUND", 404),
        (ErrorCode::SessionExists, "SESSION_EXISTS", 409),
        (ErrorCode::CredentialRefInvalid, "CREDENTIAL_REF_INVALID", 422),
        (ErrorCode::VmLaunchFailed, "VM_LAUNCH_FAILED", 500),
        (ErrorCode::ProxyUnavailable, "PROXY_UNAVAILABLE", 502),
        (ErrorCode::InternalError, "INTERNAL_ERROR", 500),
    ] {
        assert_eq!(code.as_str(), name);
        assert_eq!(code.status(), status);
    }
}

#[test]
fn what_is_not_asked_for_has_defaults() {
    assert_eq!(
        (default_vcpus(), default_memory_mib(), default_timeout_secs()),
        (1, 512, 3600)
    );
}

#[test]
fn states_have_texts() {
    for (state, name) in [
        (EnvironmentState::Running, "running"),
        (EnvironmentState::ShuttingDown, "shutting_down"),
        (EnvironmentState::Exited, "exited"),
        (EnvironmentState::Failed, "failed"),
    ] {
        assert_eq!(state.as_str(), name);
    }
}

fn line(c: &Command) -> String {
    c.line()
}

#[test]
fn commands_of_an_interface() {
    let up = setup_tap_interface("tap-x", "10.0.1.1");
    let lines: Vec<String> = up.iter().map(line).collect();
    assert_eq!(
        lines,
        vec![
            "sudo ip tuntap add dev tap-x mode tap",
            "sudo ip addr add 10.0.1.1/30 dev tap-x",
            "sudo ip link set dev tap-x up",
            "sudo ethtool -K tap-x tx off rx off",
            "sudo sh -c echo 0 > /proc/sys/net/ipv4/conf/tap-x/rp_filter",
            "sudo sh -c echo 0 > /proc/sys/net/ipv4/conf/all/rp_filter",
        ]
    );
    let required: Vec<bool> = up.iter().map(|c| c.required).collect();
    assert_eq!(required, vec![true, true, true, false, true, true]);
    let down = cleanup_tap_interface("tap-x");
    let lines: Vec<String> = down.iter().map(line).collect();
    assert_eq!(
        lines,
        vec![
            "sudo ip link set dev tap-x down",
            "sudo ip tuntap del dev tap-x mode tap",
        ]
    );
    assert!(!down[0].required && down[1].required);
}

#[test]
fn rules_of_a_machine() {
    let f = setup_nftables("tap-x", "10.0.1.1", "sess_8f7a3b2c");
    assert_eq!(f.path, "/tmp/ae-vm-manager-nftables-sess_8f7a3b2c.conf");
    assert_eq!(
        f.content,
        r#"
table ip ae_vm_sess_8f7a3b2c {
    chain prerouting {
        type nat hook prerouting priority dstnat; policy accept;
        iifname "tap-x" tcp dport != 9999 dnat to 10.0.1.1:9999
    }
    chain postrouting {
        type nat hook postrouting priority srcnat; policy accept;
    }
    chain forward {
        type filter hook forward priority filter; policy drop;
        iifname != "tap-x" oifname != "tap-x" accept
    }
    chain input {
        type filter hook input priority filter; policy drop;
        iifname != "tap-x" accept
        ip daddr 10.0.1.1 tcp dport 9999 accept
    }
}
"#
    );
    assert_eq!(
        f.load.line(),
        "sudo /usr/sbin/nft -f /tmp/ae-vm-manager-nftables-sess_8f7a3b2c.conf"
    );
    assert_eq!(
        cleanup_nftables("sess_8f7a3b2c").line(),
        "sudo /usr/sbin/nft delete table ip ae_vm_sess_8f7a3b2c"
    );
}

#[test]
fn outcomes_of_commands() {
    let c = cleanup_nftables("a_session");
    assert_eq!(c.check(&Outcome::Ran(true, vec![], vec![])), Ok(()));
    assert_eq!(
        c.check(&Outcome::NotRun),
        Err("Failed to run: sudo /usr/sbin/nft delete table ip ae_vm_a_session".to_string())
    );
    assert_eq!(
        c.check(&Outcome::Ran(false, b"out".to_vec(), b"err\xff".to_vec())),
        Err(
            "Command failed: sudo /usr/sbin/nft delete table ip ae_vm_a_session\nstdout: out\nstderr: err\u{fffd}"
                .to_string()
        )
    );
    let optional = &cleanup_tap_interface("t")[0];
    assert_eq!(optional.check(&Outcome::NotRun), Ok(()));
    assert_eq!(optional.check(&Outcome::Ran(false, vec![], vec![])), Ok(()));
}

#[test]
fn routes_of_the_manager() {
    assert!(matches!(route("POST", "/v1/environments", None), Route::Create));
    assert!(matches!(route("GET", "/v1/environments", None), Route::List));
    assert!(matches!(route("DELETE", "/v1/environments", None), Route::Unknown));
    assert!(matches!(route("GET", "/v1/environments/a/b", None), Route::Unknown));
    match route("GET", "/v1/environments/a/serial", None) {
        Route::Serial(id) => assert_eq!(id, "a"),
        r => panic!("expected Serial, got {r:?}"),
    }
    match route("GET", "/v1/environments/serial", None) {
        Route::Get(id) => assert_eq!(id, "serial"),
        r => panic!("expected Get, got {r:?}"),
    }
    match route("DELETE", "/v1/environments/a", Some("x=1&force=true")) {
        Route::Delete(id, force) => assert_eq!((id.as_str(), force), ("a", true)),
        r => panic!("expected Delete, got {r:?}"),
    }
    match route("DELETE", "/v1/environments/a", None) {
        Route::Delete(_, force) => assert!(!force),
        r => panic!("expected Delete, got {r:?}"),
    }
    assert!(!force_requested(Some("force=false")));
    assert!(!force_requested(Some("enforce=true")));
    let reply = unknown_route();
    assert_eq!(reply.status, 404);
    assert_eq!(error(reply).error.message, "unknown route");
}

#[test]
fn environments_are_shown_and_listed() {
    let mut state = VmManagerState::new();
    state.put_environment(environment("second_one", EnvironmentState::Running, 1751908626));
    state.put_environment(environment("first_one", EnvironmentState::ShuttingDown, 0));
    state.put_environment(environment("failed_one", EnvironmentState::Failed, 0));
    state.put_environment(environment("exited_one", EnvironmentState::Exited, 0));
    let reply = handle_get_environment(&state, "second_one", 1751908726);
    assert_eq!(reply.status, 200);
    match reply.body {
        Body::Status(s) => {
            assert_eq!(s.session_id, "second_one");
            assert_eq!(s.proxy_session_id, "second_one");
            assert_eq!(s.status, "running");
            assert_eq!(s.started_at, "2025-07-07T17:17:06Z");
            assert_eq!(s.expires_at, Some("2025-07-07T18:17:06Z".to_string()));
            assert_eq!(s.uptime_secs, 100);
        }
        _ => panic!("expected a status"),
    }
    let reply = handle_list_environments(&state, 50);
    assert_eq!(reply.status, 200);
    match reply.body {
        Body::List(l) => {
            let ids: Vec<&str> = l.environments.iter().map(|e| e.session_id.as_str()).collect();
            assert_eq!(ids, vec!["second_one", "first_one"]);
            assert_eq!(l.environments[0].uptime_secs, 0);
            assert_eq!(l.environments[1].uptime_secs, 50);
            assert_eq!(l.environments[1].status, "shutting_down");
            assert_eq!(l.environments[1].started_at, "");
        }
        _ => panic!("expected a list"),
    }
    match handle_get_environment(&state, "failed_one", 1).body {
        Body::Status(s) => assert_eq!(s.status, "failed"),
        _ => panic!("expected a status"),
    }
    let reply = handle_get_environment(&state, "nobody", 1);
    assert_eq!(reply.status, 404);
    let e = error(reply);
    assert_eq!(e.error.code, "SESSION_NOT_FOUND");
    assert_eq!(e.error.message, "environment not found: nobody");
}

#[test]
fn environments_are_taken_down() {
    let mut state = VmManagerState::new();
    state.put_environment(environment("an_environment", EnvironmentState::Running, 1));
    let (reply, stop_due) = handle_delete_environment(&mut state, "an_environment");
    assert_eq!(reply.status, 202);
    assert!(stop_due);
    match reply.body {
        Body::Deleted(d) => {
            assert_eq!(d.session_id, "an_environment");
            assert_eq!(d.status, "shutting_down");
        }
        _ => panic!("expected a deletion"),
    }
    match handle_get_environment(&state, "an_environment", 1).body {
        Body::Status(s) => assert_eq!(s.status, "shutting_down"),
        _ => panic!("expected a status"),
    }
    let (reply, stop_due) = handle_delete_environment(&mut state, "nobody");
    assert_eq!(reply.status, 404);
    assert!(!stop_due);
}

#[test]
fn machines_are_stopped_once() {
    let mut state = VmManagerState::new();
    state.put_environment(environment("an_environment", EnvironmentState::Running, 1));
    assert!(handle_delete_environment(&mut state, "an_environment").1);
    for _ in 0..2 {
        let (reply, stop_due) = handle_delete_environment(&mut state, "an_environment");
        assert_eq!(reply.status, 202);
        assert!(!stop_due);
    }
}

#[test]
fn environments_that_are_gone_stay_gone() {
    for (status, told) in
        [(EnvironmentState::Exited, "exited"), (EnvironmentState::Failed, "failed")]
    {
        let mut state = VmManagerState::new();
        state.put_environment(environment("an_environment", status, 1));
        let (reply, stop_due) = handle_delete_environment(&mut state, "an_environment");
        assert_eq!(reply.status, 202);
        assert!(!stop_due);
        match handle_get_environment(&state, "an_environment", 1).body {
            Body::Status(s) => assert_eq!(s.status, told),
            _ => panic!("expected a status"),
        }
    }
}

#[test]
fn replies_say_what_they_carry() {
    let mut state = VmManagerState::new();
    let reply = handle_list_environments(&state, 1);
    assert_eq!(reply.content_type(), "application/json");
    assert_eq!(reply.cache_control(), None);
    state.put_environment(environment("an_environment", EnvironmentState::Running, 1));
    for status in [EnvironmentState::Running, EnvironmentState::Exited] {
        state.set_status("an_environment", status);
        let reply = handle_serial(&state, "an_environment");
        assert!(reply.is_events());
        assert_eq!(reply.content_type(), "text/event-stream");
        assert_eq!(reply.cache_control(), Some("no-cache"));
    }
}

#[test]
fn environments_whose_time_is_up() {
    let mut state = VmManagerState::new();
    state.put_environment(environment("running_long", EnvironmentState::Running, 1));
    state.put_environment(environment("gone_already", EnvironmentState::Exited, 1));
    state.put_environment(environment("started_late", EnvironmentState::Running, 2));
    assert_eq!(overdue(&state, 3600), Vec::<String>::new());
    assert_eq!(overdue(&state, 3601), vec!["running_long".to_string()]);
    handle_delete_environment(&mut state, "running_long");
    assert_eq!(overdue(&state, 9999), vec!["started_late".to_string()]);
}

#[test]
fn consoles() {
    let mut state = VmManagerState::new();
    state.put_environment(environment("an_environment", EnvironmentState::Running, 1));
    match handle_serial(&state, "an_environment").body {
        Body::Live(id) => assert_eq!(id, "an_environment"),
        _ => panic!("expected a stream"),
    }
    for status in [EnvironmentState::Exited, EnvironmentState::Failed] {
        state.set_status("an_environment", status);
        let reply = handle_serial(&state, "an_environment");
        assert_eq!(reply.status, 200);
        match reply.body {
            Body::Events(s) => assert_eq!(s, "data: [DONE]\n\n"),
            _ => panic!("expected events"),
        }
    }
    assert_eq!(handle_serial(&state, "nobody").status, 404);
    assert_eq!(done_event(), "data: [DONE]\n\n");
    assert_eq!(
        serial_events("[    0.000000] Linux\r\nTEST 1 PASS\n"),
        "data: [    0.000000] Linux\n\ndata: TEST 1 PASS\n\n"
    );
    assert_eq!(serial_events(""), "");
}

#[test]
fn tables_of_different_machines_differ() {
    assert_ne!(nft_table_name("session_1"), nft_table_name("session_2"));
    assert_eq!(nft_table_name("session_1"), "ae_vm_session_1");
}

#[test]
fn the_clock_runs() {
    let before = now_secs();
    assert!(before > 1_600_000_000);
    assert!(now_secs() >= before);
}
