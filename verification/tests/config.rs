use sidepulse_bridge::config::{
    admin_password, bind_address, http_redirect, msg_ttl, tls_files, tls_ready, var_or, CertWatch,
    Opened,
};
use sidepulse_bridge::text::{
    all_token_chars, decimal, parse_unsigned, same_text, strip_prefix,
};

#[test]
fn time_to_live_of_messages() {
    assert_eq!(msg_ttl(None), 300);
    assert_eq!(msg_ttl(Some("5")), 5);
    assert_eq!(msg_ttl(Some("18446744073709551615")), u64::MAX);
    assert_eq!(msg_ttl(Some("18446744073709551616")), 300);
    assert_eq!(msg_ttl(Some("5s")), 300);
}

#[test]
fn empty_passwords_do_not_count() {
    assert_eq!(admin_password(None), None);
    assert_eq!(admin_password(Some(String::new())), None);
    assert_eq!(
        admin_password(Some("x".to_string())),
        Some("x".to_string())
    );
}

#[test]
fn tls_is_used_or_plainly_not() {
    assert_eq!(tls_ready(Opened::Yes, Opened::Yes), Some(true));
    assert_eq!(tls_ready(Opened::NotFound, Opened::NotFound), Some(false));
    assert_eq!(tls_ready(Opened::Yes, Opened::NotFound), None);
    assert_eq!(tls_ready(Opened::NotFound, Opened::Yes), None);
    assert_eq!(tls_ready(Opened::Failed, Opened::Failed), None);
    assert_eq!(tls_ready(Opened::Failed, Opened::Yes), None);
}

#[test]
fn defaults_of_the_environment() {
    assert_eq!(bind_address(None, true), "0.0.0.0:443");
    assert_eq!(bind_address(None, false), "0.0.0.0:8080");
    assert_eq!(bind_address(Some("a:1".to_string()), true), "a:1");
    assert_eq!(
        http_redirect(None, None),
        (
            "/var/lib/sidepulse-bridge/acme".to_string(),
            "0.0.0.0:80".to_string()
        )
    );
    assert_eq!(
        tls_files(Some("c".to_string()), None),
        (
            "c".to_string(),
            "/etc/letsencrypt/live/bridge.sidepulse.io/privkey.pem".to_string()
        )
    );
    assert_eq!(
        tls_files(None, Some("k".to_string())).0,
        "/etc/letsencrypt/live/bridge.sidepulse.io/fullchain.pem"
    );
    assert_eq!(var_or(None, "d"), "d");
    assert_eq!(var_or(Some(String::new()), "d"), "");
}

#[test]
fn certificates_are_reloaded_once_per_change() {
    let mut watch = CertWatch::new(Some(1));
    assert!(!watch.changed(Some(1)));
    assert!(watch.changed(Some(2)));
    assert!(!watch.changed(Some(2)));
    assert!(watch.changed(None));
    assert!(!watch.changed(None));
    assert!(watch.changed(Some(-5)));
}

#[test]
fn numbers_are_read_and_written() {
    assert_eq!(parse_unsigned("007", 10), Some(7));
    assert_eq!(parse_unsigned("10", 10), Some(10));
    assert_eq!(parse_unsigned("11", 10), None);
    assert_eq!(parse_unsigned("٣", 10), None);
    for n in [0u16, 9, 10, 200, 404, 65535] {
        assert_eq!(decimal(n), n.to_string());
        assert_eq!(parse_unsigned(&decimal(n), 65535), Some(n as u64));
    }
}

#[test]
fn prefixes_and_tokens() {
    assert_eq!(strip_prefix("apns_tok", "apns_"), Some("tok"));
    assert_eq!(strip_prefix("apns_", "apns_"), Some(""));
    assert_eq!(strip_prefix("apns", "apns_"), None);
    assert_eq!(strip_prefix("APNS_x", "apns_"), None);
    assert_eq!(strip_prefix("éa", "é"), Some("a"));
    assert!(same_text("a", "a"));
    assert!(!same_text("a", "ab"));
    assert!(!same_text("ab", "a"));
    assert!(same_text("", ""));
    assert!(all_token_chars("azAZ09-_"));
    assert!(!all_token_chars("a@"));
    assert!(!all_token_chars("["));
}
