use sidepulse_bridge::auth::{admin_authorized, check_credentials, constant_time_eq};

#[test]
fn comparison_is_equality() {
    assert!(constant_time_eq(b"", b""));
    assert!(constant_time_eq(b"secret", b"secret"));
    assert!(!constant_time_eq(b"secret", b"secreT"));
    assert!(!constant_time_eq(b"secret", b"secre"));
    assert!(!constant_time_eq(b"", b"\0"));
    assert!(!constant_time_eq(b"a\0", b"a"));
}

#[test]
fn credentials_are_split_at_the_first_colon() {
    assert!(check_credentials(b"user:pass", "pass"));
    assert!(check_credentials(b":pass", "pass"));
    assert!(check_credentials(b"user:pa:ss", "pa:ss"));
    assert!(!check_credentials(b"user:pa:ss", "ss"));
    assert!(!check_credentials(b"pass", "pass"));
    assert!(!check_credentials(b"", ""));
    assert!(check_credentials(b"user:", ""));
    assert!(check_credentials("u:pä".as_bytes(), "pä"));
}

#[test]
fn authorization_headers() {
    // "admin:secret"
    assert!(admin_authorized(
        Some("secret"),
        Some("Basic YWRtaW46c2VjcmV0")
    ));
    assert!(!admin_authorized(
        Some("secret"),
        Some("basic YWRtaW46c2VjcmV0")
    ));
    assert!(!admin_authorized(Some("secret"), Some("YWRtaW46c2VjcmV0")));
    assert!(!admin_authorized(
        Some("secret"),
        Some("Basic YWRtaW46c2VjcmV0!")
    ));
    assert!(!admin_authorized(
        Some("YWRtaW46c2VjcmV0"),
        Some("Basic YWRtaW46c2VjcmV0")
    ));
    // Without its padding "OnNlY3JldA==" is no standard base64.
    assert!(admin_authorized(Some("secret"), Some("Basic OnNlY3JldA==")));
    assert!(!admin_authorized(Some("secret"), Some("Basic OnNlY3JldA")));
    assert!(!admin_authorized(
        None,
        Some("Basic YWRtaW46c2VjcmV0")
    ));
    assert!(!admin_authorized(Some("secret"), None));
    assert!(!admin_authorized(Some("secret"), Some("Basic ")));
}
