//! Requests on their way upstream.

use agent_env::proxy::connect::{forward, Forward};
use agent_env::proxy::rewrite::{
    is_websocket_text, is_websocket_upgrade, rewrite_request, value_of_header, with_real_key,
    RewriteError,
};
use agent_env::single_key;
use agent_env::strmap::StrMap;

fn key_map(pairs: &[(&str, &str)]) -> StrMap<String> {
    let mut map = StrMap::new();
    for (dummy, key) in pairs {
        map.insert(dummy.to_string(), key.to_string());
    }
    map
}

fn chars(s: &str) -> Vec<char> {
    s.chars().collect()
}

#[test]
fn rewrite_dummy_to_real_swap() {
    let map = key_map(&[("sk-dummy-abc", "sk-real-xyz")]);
    let raw = b"GET /v1/models HTTP/1.1\r\nHost: api.openai.com\r\nAuthorization: Bearer sk-dummy-abc\r\n\r\n";
    let out = rewrite_request(raw, &map, "api.openai.com").unwrap();
    let s = String::from_utf8_lossy(&out);
    assert!(s.contains("Authorization: Bearer sk-real-xyz"));
    assert!(!s.contains("sk-dummy-abc"));
}

#[test]
fn rewrite_unknown_dummy_key_returns_err() {
    let map = key_map(&[("sk-dummy-known", "sk-real-known")]);
    let raw = b"GET /v1/models HTTP/1.1\r\nHost: api.openai.com\r\nAuthorization: Bearer sk-dummy-unknown\r\n\r\n";
    let result = rewrite_request(raw, &map, "api.openai.com");
    assert!(result.is_err());
    match result.unwrap_err() {
        RewriteError::UnknownDummyKey(key) => assert_eq!(key, "sk-dummy-unknown"),
        e => panic!("expected UnknownDummyKey, got {e:?}"),
    }
}

#[test]
fn rewrite_no_auth_header_returns_err() {
    let map = key_map(&[]);
    let raw = b"GET /v1/models HTTP/1.1\r\nHost: api.openai.com\r\n\r\n";
    let result = rewrite_request(raw, &map, "api.openai.com");
    assert!(result.is_err());
    match result.unwrap_err() {
        RewriteError::NoAuthHeader => {}
        e => panic!("expected NoAuthHeader, got {e:?}"),
    }
}

#[test]
fn rewrite_multiple_keys_in_map() {
    let map = key_map(&[("sk-dummy-1", "sk-real-1"), ("sk-dummy-2", "sk-real-2")]);
    // Request with first dummy key
    let raw1 = b"GET /v1/models HTTP/1.1\r\nHost: api.openai.com\r\nAuthorization: Bearer sk-dummy-1\r\n\r\n";
    let out1 = rewrite_request(raw1, &map, "api.openai.com").unwrap();
    assert!(String::from_utf8_lossy(&out1).contains("sk-real-1"));
    // Request with second dummy key
    let raw2 = b"GET /v1/models HTTP/1.1\r\nHost: api.openai.com\r\nAuthorization: Bearer sk-dummy-2\r\n\r\n";
    let out2 = rewrite_request(raw2, &map, "api.openai.com").unwrap();
    assert!(String::from_utf8_lossy(&out2).contains("sk-real-2"));
}

#[test]
fn rewrite_host_header_updated() {
    let map = key_map(&[("sk-dummy", "sk-real")]);
    let raw = b"GET /v1/models HTTP/1.1\r\nHost: api.original.com\r\nAuthorization: Bearer sk-dummy\r\n\r\n";
    let out = rewrite_request(raw, &map, "api.upstream.com").unwrap();
    let s = String::from_utf8_lossy(&out);
    assert!(s.contains("Host: api.upstream.com"));
    assert!(!s.contains("api.original.com"));
}

#[test]
fn rewrite_strips_client_auth_and_injects_real_key() {
    let raw = b"GET /v1/models HTTP/1.1\r\nHost: api.openai.com\r\nAuthorization: Bearer PLACEHOLDER\r\n";
    let out = single_key::request::rewrite_request(raw, "sk-REAL-KEY", "api.openai.com");
    let s = String::from_utf8_lossy(&out);
    assert!(s.contains("Authorization: Bearer sk-REAL-KEY"));
    assert!(!s.contains("PLACEHOLDER"));
}

#[test]
fn rewrite_gives_exact_bytes() {
    let map = key_map(&[("d", "r")]);
    let raw = b"POST /x HTTP/1.1\r\nHOST : a\r\nauthorization:Bearer   d \r\nAuthorization: Basic q\r\nX: 1\r\n\r\nbody";
    let out = rewrite_request(raw, &map, "up").unwrap();
    assert_eq!(
        out,
        b"POST /x HTTP/1.1\r\nAuthorization: Bearer r\r\nHost: up\r\nX: 1\r\n\r\nbody".to_vec()
    );
}

#[test]
fn rewrite_adds_no_key_to_a_single_line() {
    assert_eq!(with_real_key(&chars("GET /"), "k", "h"), chars("GET /"));
    assert_eq!(with_real_key(&chars("Authorization: Bearer x"), "k", "h"), chars(""));
}

#[test]
fn rewrite_passes_over_other_schemes() {
    let map = key_map(&[("d", "r")]);
    let raw = b"GET / HTTP/1.1\r\nAuthorization: Basic d\r\nAuthorization: Bearer d\r\n\r\n";
    let out = rewrite_request(raw, &map, "h").unwrap();
    assert_eq!(out, b"GET / HTTP/1.1\r\nAuthorization: Bearer r\r\n\r\n".to_vec());
}

#[test]
fn rewrite_replaces_bytes_that_are_not_text() {
    let out = single_key::request::rewrite_request(b"GET /\xff\r\nA: b\r\n", "k", "h");
    assert_eq!(
        out,
        "GET /\u{fffd}\r\nAuthorization: Bearer k\r\nA: b\r\n".as_bytes().to_vec()
    );
}

#[test]
fn rewritten_request_reads_back_as_lines() {
    let map = key_map(&[("d", "r")]);
    let raw = b"GET / HTTP/1.1\r\nAuthorization: Bearer d\r\nA: 1\r\n\r\n";
    let out = String::from_utf8(rewrite_request(raw, &map, "h").unwrap()).unwrap();
    let lines: Vec<&str> = out.split("\r\n").collect();
    assert_eq!(
        lines,
        vec!["GET / HTTP/1.1", "Authorization: Bearer r", "A: 1", "", ""]
    );
    let count = lines
        .iter()
        .filter(|l| value_of_header(&chars(l), &chars("authorization")).is_some())
        .count();
    assert_eq!(count, 1);
}

#[test]
fn header_names_are_trimmed_and_ignore_case() {
    let name = chars("host");
    assert_eq!(value_of_header(&chars(" HoSt : x"), &name), Some(chars(" x")));
    assert_eq!(value_of_header(&chars("Host"), &name), None);
    assert_eq!(value_of_header(&chars("Hosts: x"), &name), None);
}

#[test]
fn test_is_websocket_upgrade_detected() {
    let req = b"GET /ws HTTP/1.1\r\nHost: api.openai.com\r\nConnection: Upgrade\r\nUpgrade: websocket\r\n\r\n";
    assert!(is_websocket_upgrade(req));
}

#[test]
fn test_is_websocket_upgrade_case_insensitive() {
    let req = b"GET /ws HTTP/1.1\r\nHost: api.openai.com\r\nconnection: upgrade\r\nupgrade: WebSocket\r\n\r\n";
    assert!(is_websocket_upgrade(req));
}

#[test]
fn test_is_websocket_upgrade_missing_connection() {
    let req = b"GET /ws HTTP/1.1\r\nHost: api.openai.com\r\nUpgrade: websocket\r\n\r\n";
    assert!(!is_websocket_upgrade(req));
}

#[test]
fn test_is_websocket_upgrade_missing_upgrade() {
    let req = b"GET /ws HTTP/1.1\r\nHost: api.openai.com\r\nConnection: Upgrade\r\n\r\n";
    assert!(!is_websocket_upgrade(req));
}

#[test]
fn test_is_websocket_upgrade_normal_request() {
    let req = b"GET /v1/models HTTP/1.1\r\nHost: api.openai.com\r\nAuthorization: Bearer sk-dum\r\n\r\n";
    assert!(!is_websocket_upgrade(req));
}

#[test]
fn websocket_lines_end_at_line_feeds() {
    assert!(is_websocket_text(&chars("connection: upgrade\nx-upgrade: websocket-13")));
    assert!(!is_websocket_text(&chars("connection: upgrade \nupgrade: websocket")));
}

#[test]
fn websocket_goes_on_unchanged() {
    let raw = b"GET /ws HTTP/1.1\r\nConnection: Upgrade\r\nUpgrade: websocket\r\n\r\n".to_vec();
    match forward(raw.clone(), &key_map(&[]), "h") {
        Forward::Unchanged(b) => assert_eq!(b, raw),
        _ => panic!("expected the request as it was"),
    }
}

#[test]
fn request_without_known_key_is_refused() {
    let reply = b"HTTP/1.1 403 Forbidden\r\nContent-Length: 0\r\n\r\n".to_vec();
    let map = key_map(&[("known", "real")]);
    for raw in [
        b"GET / HTTP/1.1\r\nAuthorization: Bearer other\r\n\r\n".to_vec(),
        b"GET / HTTP/1.1\r\nHost: x\r\n\r\n".to_vec(),
    ] {
        match forward(raw, &map, "h") {
            Forward::Refused(b) => assert_eq!(b, reply),
            _ => panic!("expected a refusal"),
        }
    }
    match forward(b"G / H\r\nAuthorization: Bearer known\r\n\r\n".to_vec(), &map, "h") {
        Forward::Rewritten(b) => {
            assert_eq!(b, b"G / H\r\nAuthorization: Bearer real\r\n\r\n".to_vec())
        }
        _ => panic!("expected a rewritten request"),
    }
}
