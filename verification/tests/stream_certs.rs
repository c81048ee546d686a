//! Relays, certificates and the text tools beneath.

use agent_env::certs::{ca_profile, colon_hex, leaf_profile, Ca, CertError};
use agent_env::numbers::{number_string, parse_number};
use agent_env::stream::{Action, Event, Relay};
use agent_env::strmap::StrMap;
use agent_env::text;
use agent_env::unicode;

fn chars(s: &str) -> Vec<char> {
    s.chars().collect()
}

#[test]
fn a_relay_hands_bytes_on_unchanged() {
    let mut relay = Relay::new();
    assert!(relay.reads_client());
    match relay.step(Event::FromClient(b"up".to_vec())) {
        Action::ToUpstream(b) => assert_eq!(b, b"up".to_vec()),
        _ => panic!("expected bytes for the upstream host"),
    }
    match relay.step(Event::FromUpstream(b"down".to_vec())) {
        Action::ToClient(b) => assert_eq!(b, b"down".to_vec()),
        _ => panic!("expected bytes for the client"),
    }
}

#[test]
fn a_relay_drains_the_upstream_host_after_the_client() {
    let mut relay = Relay::new();
    assert!(matches!(relay.step(Event::FromClient(vec![])), Action::Drain));
    assert_eq!(relay, Relay::Draining);
    assert!(!relay.reads_client());
    assert!(matches!(relay.step(Event::FromUpstream(vec![1])), Action::ToClient(_)));
    assert_eq!(relay, Relay::Draining);
    assert!(matches!(relay.step(Event::FromUpstream(vec![])), Action::Finish));
    assert_eq!(relay, Relay::Ended);
}

#[test]
fn a_relay_ends_on_failure() {
    let mut relay = Relay::new();
    match relay.step(Event::Failed("reset".to_string())) {
        Action::Fail(m) => assert_eq!(m, "reset"),
        _ => panic!("expected a failure"),
    }
    assert_eq!(relay, Relay::Ended);
}

#[test]
fn a_certificate_has_text_and_fingerprint() {
    let ca = Ca { ca_der: b"abc".to_vec() };
    assert_eq!(
        ca.fingerprint(),
        "ba:78:16:bf:8f:01:cf:ea:41:41:40:de:5d:ae:22:23:b0:03:61:a3:96:17:7a:9c:b4:10:ff:61:f2:00:15:ad"
    );
    let pem = ca.ca_pem();
    assert!(pem.starts_with("-----BEGIN CERTIFICATE-----"));
    assert!(pem.contains("YWJj"));
    assert!(pem.trim_end().ends_with("-----END CERTIFICATE-----"));
}

#[test]
fn hexadecimal_digits_with_colons() {
    assert_eq!(colon_hex(&[]), "");
    assert_eq!(colon_hex(&[0x0a]), "0a");
    assert_eq!(colon_hex(&[0, 255, 16]), "00:ff:10");
}

#[test]
fn profiles_of_certificates() {
    let ca = ca_profile();
    assert!(ca.is_ca);
    assert_eq!(ca.common_name, "ae-poc MITM CA");
    assert_eq!(ca.organization, Some("mintybasil".to_string()));
    assert!(ca.names.is_empty());
    assert_eq!((ca.from_secs, ca.until_secs), (-86400, 3650 * 86400));
    let leaf = leaf_profile("api.openai.com");
    assert!(!leaf.is_ca);
    assert_eq!(leaf.names, vec!["api.openai.com".to_string()]);
    assert_eq!(leaf.common_name, "api.openai.com");
    assert_eq!((leaf.from_secs, leaf.until_secs), (-60, 7 * 86400));
}

#[test]
fn certificate_errors_have_their_texts() {
    let s = || "x".to_string();
    assert_eq!(CertError::KeyGen(s()).message(), "rcgen key generation failed: x");
    assert_eq!(
        CertError::CaGen(s()).message(),
        "rcgen CA certificate generation failed: x"
    );
    assert_eq!(
        CertError::LeafGen(s()).message(),
        "rcgen leaf certificate generation failed: x"
    );
    assert_eq!(CertError::KeyImport(s()).message(), "rustls key import failed: x");
    assert_eq!(
        CertError::ServerConfig(s()).message(),
        "rustls server config build failed: x"
    );
}

#[test]
fn splitting_and_joining_undo_each_other() {
    let s = chars("a\r\n\r\nb\r");
    let sep = chars("\r\n");
    let parts = text::split_chars(&s, &sep);
    assert_eq!(parts, vec![chars("a"), chars(""), chars("b\r")]);
    assert_eq!(text::join_chars(&parts, &sep), s);
    assert_eq!(text::split_chars(&[], &sep), vec![chars("")]);
    assert_eq!(text::join_chars(&vec![], &sep), chars(""));
}

#[test]
fn searching_in_text() {
    let s = chars("abcabc");
    assert_eq!(text::find(&s, &chars("bc"), 2), Some(4));
    assert_eq!(text::find(&s, &chars("bc"), 5), None);
    assert_eq!(text::find(&s, &chars(""), 6), Some(6));
    assert!(text::has(&s, &chars("cab")));
    assert!(!text::has(&s, &chars("cb")));
    assert!(text::begins_with(&s, &chars("ab")));
    assert!(text::finishes_with(&s, &chars("bc")));
    assert!(!text::finishes_with(&chars("c"), &chars("bc")));
    assert_eq!(text::last_index_of_char(&s, 'a'), Some(3));
    assert_eq!(text::index_of_char(&s, 'a', 1), Some(3));
    assert!(text::has_char(&s, 'c') && !text::has_char(&s, 'd'));
    assert!(text::eq_ignore_ascii_case(&chars("aBÄ"), &chars("AbÄ")));
    assert!(!text::eq_ignore_ascii_case(&chars("ä"), &chars("Ä")));
    assert!(text::same_str("x", "x") && !text::same_str("x", "xx"));
}

#[test]
fn lines_and_white_space() {
    assert_eq!(
        unicode::lines_of(&chars("a\r\nb\n\nc\r")),
        vec![chars("a"), chars("b"), chars(""), chars("c\r")]
    );
    assert_eq!(unicode::lines_of(&[]), Vec::<Vec<char>>::new());
    assert_eq!(unicode::trim_chars(&chars("\u{3000} x y\t\u{85}")), chars("x y"));
    assert_eq!(unicode::trim_chars(&chars(" \n")), chars(""));
    for c in '\0'..='\u{ffff}' {
        assert_eq!(unicode::is_white_space(c), c.is_whitespace());
    }
}

#[test]
fn numbers_in_decimal_digits() {
    for n in [0u64, 7, 10, 65535, u64::MAX] {
        assert_eq!(number_string(n), n.to_string());
        assert_eq!(parse_number(&chars(&n.to_string()), u64::MAX), Some(n));
    }
    assert_eq!(parse_number(&chars("+007"), 7), Some(7));
    assert_eq!(parse_number(&chars("8"), 7), None);
    assert_eq!(parse_number(&chars("18446744073709551616"), u64::MAX), None);
    for s in ["", "+", "-1", " 1", "1a", "++1"] {
        assert_eq!(parse_number(&chars(s), 100), None);
    }
}

#[test]
fn a_map_keeps_the_order_of_its_keys() {
    let mut m: StrMap<u32> = StrMap::new();
    assert!(m.is_empty());
    m.insert("b".to_string(), 1);
    m.insert("a".to_string(), 2);
    m.insert("b".to_string(), 3);
    assert_eq!(m.len(), 2);
    assert_eq!(m.at(0), (&"b".to_string(), &3));
    assert_eq!(m.at(1), (&"a".to_string(), &2));
    assert!(m.contains_key("a"));
    assert_eq!(m.remove("b"), Some(3));
    assert_eq!(m.remove("b"), None);
    assert_eq!(m.get("b"), None);
    assert_eq!(m.get("a"), Some(&2));
}
