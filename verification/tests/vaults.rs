//! Secret stores with key pairs, and with single keys.

use agent_env::single_key;
use agent_env::single_key::vault::SecretStore as SingleSecretStore;
use agent_env::vault::{FileSecretStore, KeyPair, MockSecretStore, SecretStore, SecretStoreError};
use std::collections::HashMap;

/// What a key file with pairs reads as.
fn parsed_pairs(json: &str) -> Result<Vec<(String, KeyPair)>, String> {
    let map: HashMap<String, HashMap<String, String>> =
        serde_json::from_str(json).map_err(|e| e.to_string())?;
    Ok(map
        .into_iter()
        .map(|(k, v)| {
            (
                k,
                KeyPair {
                    dummy: v["dummy"].clone(),
                    real: v["real"].clone(),
                },
            )
        })
        .collect())
}

#[test]
fn test_mock_fetch_success() {
    let mut store = MockSecretStore::new();
    store.insert(
        "vault://secret/data/test-key",
        "sk-dummy-123",
        "sk-real-456",
    );
    let pair = store.fetch("vault://secret/data/test-key").unwrap();
    assert_eq!(pair.dummy, "sk-dummy-123");
    assert_eq!(pair.real, "sk-real-456");
}

#[test]
fn test_mock_fetch_not_found() {
    let store = MockSecretStore::new();
    let result = store.fetch("vault://secret/data/nonexistent");
    assert!(result.is_err());
    match result.unwrap_err() {
        SecretStoreError::NotFound(ref_str) => {
            assert_eq!(ref_str, "vault://secret/data/nonexistent");
        }
        e => panic!("expected NotFound, got {e:?}"),
    }
}

#[test]
fn test_file_store_load_and_fetch() {
    let json = r#"{"vault://secret/data/openai-key": {"dummy": "sk-dum-abc", "real": "sk-real-abc"}, "vault://secret/data/anthropic-key": {"dummy": "sk-ant-dum-xyz", "real": "sk-ant-real-xyz"}}"#;
    let store = FileSecretStore::new(parsed_pairs(json)).ok().unwrap();
    let pair = store.fetch("vault://secret/data/openai-key").unwrap();
    assert_eq!(pair.dummy, "sk-dum-abc");
    assert_eq!(pair.real, "sk-real-abc");
    let pair = store.fetch("vault://secret/data/anthropic-key").unwrap();
    assert_eq!(pair.dummy, "sk-ant-dum-xyz");
    assert_eq!(pair.real, "sk-ant-real-xyz");
}

#[test]
fn test_file_store_missing_key() {
    let json =
        r#"{"vault://secret/data/openai-key": {"dummy": "sk-dum-abc", "real": "sk-real-abc"}}"#;
    let store = FileSecretStore::new(parsed_pairs(json)).ok().unwrap();
    let result = store.fetch("vault://secret/data/nonexistent");
    assert!(result.is_err());
    match result.unwrap_err() {
        SecretStoreError::NotFound(ref_str) => {
            assert_eq!(ref_str, "vault://secret/data/nonexistent");
        }
        e => panic!("expected NotFound, got {e:?}"),
    }
}

#[test]
fn test_file_store_malformed_json() {
    let result = FileSecretStore::new(parsed_pairs("not valid json {{{"));
    assert!(result.is_err());
    match result.err().unwrap() {
        SecretStoreError::Invalid(m) => {
            assert!(m.starts_with("malformed key file JSON: "))
        }
        e => panic!("expected Invalid, got {e:?}"),
    }
}

#[test]
fn test_file_store_empty_file() {
    let result = FileSecretStore::new(parsed_pairs("{}"));
    assert!(result.is_err());
    match result.err().unwrap() {
        SecretStoreError::Invalid(m) => assert_eq!(m, "key file is empty"),
        e => panic!("expected Invalid, got {e:?}"),
    }
}

#[test]
fn test_file_store_from_stdin_parsing() {
    let json =
        r#"{"vault://secret/data/test-key": {"dummy": "sk-dum-test", "real": "sk-real-test"}}"#;
    let store = FileSecretStore::from_stdin(Ok(parsed_pairs(json))).ok().unwrap();
    let pair = store.fetch("vault://secret/data/test-key").unwrap();
    assert_eq!(pair.dummy, "sk-dum-test");
    assert_eq!(pair.real, "sk-real-test");
}

#[test]
fn unreadable_input_is_an_internal_error() {
    match FileSecretStore::from_stdin(Err("closed".to_string())).err().unwrap() {
        SecretStoreError::Internal(m) => assert_eq!(m, "failed to read stdin: closed"),
        e => panic!("expected Internal, got {e:?}"),
    }
    let r = single_key::vault::FileSecretStore::from_stdin(Err("closed".to_string()));
    match r.err().unwrap() {
        SecretStoreError::Internal(m) => assert_eq!(m, "failed to read stdin: closed"),
        e => panic!("expected Internal, got {e:?}"),
    }
    let r = single_key::vault::FileSecretStore::from_file("/k", Err("gone".to_string()));
    match r.err().unwrap() {
        SecretStoreError::Internal(m) => assert_eq!(m, "failed to read key file /k: gone"),
        e => panic!("expected Internal, got {e:?}"),
    }
}

#[test]
fn secret_errors_have_their_texts() {
    let s = |m: &str| m.to_string();
    assert_eq!(
        SecretStoreError::NotFound(s("a")).message(),
        "credential ref not found: a"
    );
    assert_eq!(
        SecretStoreError::Invalid(s("b")).message(),
        "credential ref invalid: b"
    );
    assert_eq!(
        SecretStoreError::Internal(s("c")).message(),
        "secret store error: c"
    );
}

#[test]
fn vault_test_mock_fetch_success() {
    let mut store = single_key::vault::MockSecretStore::new();
    store.insert("vault://secret/data/test-key", "sk-test-123");
    assert_eq!(
        store.fetch("vault://secret/data/test-key").unwrap(),
        "sk-test-123"
    );
}

#[test]
fn vault_test_mock_fetch_not_found() {
    let store = single_key::vault::MockSecretStore::new();
    let result = store.fetch("vault://secret/data/nonexistent");
    assert!(result.is_err());
    match result.unwrap_err() {
        SecretStoreError::NotFound(ref_str) => {
            assert_eq!(ref_str, "vault://secret/data/nonexistent");
        }
        e => panic!("expected NotFound, got {e:?}"),
    }
}

#[test]
fn vault_test_file_store_load_and_fetch() {
    let json = r#"{"vault://secret/data/openai-key": "sk-abc123", "vault://secret/data/anthropic-key": "sk-ant-xyz"}"#;
    let store = single_key::vault::FileSecretStore::new(json).ok().unwrap();
    assert_eq!(
        store.fetch("vault://secret/data/openai-key").unwrap(),
        "sk-abc123"
    );
    assert_eq!(
        store.fetch("vault://secret/data/anthropic-key").unwrap(),
        "sk-ant-xyz"
    );
}

#[test]
fn vault_test_file_store_missing_key() {
    let json = r#"{"vault://secret/data/openai-key": "sk-abc123"}"#;
    let store = single_key::vault::FileSecretStore::new(json).ok().unwrap();
    let result = store.fetch("vault://secret/data/nonexistent");
    assert!(result.is_err());
    match result.unwrap_err() {
        SecretStoreError::NotFound(ref_str) => {
            assert_eq!(ref_str, "vault://secret/data/nonexistent");
        }
        e => panic!("expected NotFound, got {e:?}"),
    }
}

#[test]
fn vault_test_file_store_malformed_json() {
    let result = single_key::vault::FileSecretStore::new("not valid json {{{");
    assert!(result.is_err());
    match result.err().unwrap() {
        SecretStoreError::Invalid(m) => {
            assert!(m.starts_with("malformed key file JSON: "))
        }
        e => panic!("expected Invalid, got {e:?}"),
    }
}

#[test]
fn vault_test_file_store_empty_file() {
    let result = single_key::vault::FileSecretStore::new("{}");
    assert!(result.is_err());
    match result.err().unwrap() {
        SecretStoreError::Invalid(m) => assert_eq!(m, "key file is empty"),
        e => panic!("expected Invalid, got {e:?}"),
    }
}

#[test]
fn test_file_store_from_file() {
    let read = Ok(r#"{"vault://secret/data/test-key": "sk-from-file"}"#.to_string());
    let store = single_key::vault::FileSecretStore::from_file("ae-poc-test-keys.json", read)
        .ok()
        .unwrap();
    assert_eq!(
        store.fetch("vault://secret/data/test-key").unwrap(),
        "sk-from-file"
    );
}

#[test]
fn test_file_store_from_stdin() {
    let json = r#"{"vault://secret/data/test-key": "sk-from-stdin"}"#;
    let store = single_key::vault::FileSecretStore::new(json).ok().unwrap();
    assert_eq!(
        store.fetch("vault://secret/data/test-key").unwrap(),
        "sk-from-stdin"
    );
}
