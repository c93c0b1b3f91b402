use k8s_consul_mutator_rs::config::build_settings;
use k8s_consul_mutator_rs::text::parse_u16;

fn defaults(version: &str) -> k8s_consul_mutator_rs::config::Settings {
    build_settings(
        version, None, None, None, None, None, None, None, None, None, None, None, None, None,
        None, None, None, None,
    )
}

#[test]
fn settings_defaults() {
    let s = defaults("1.2.3");
    assert_eq!(s.version, "1.2.3");
    assert_eq!(s.port, 8080);
    assert_eq!(s.secure_port, 8443);
    assert_eq!(s.certificate, "");
    assert_eq!(s.certificate_key, "");
    assert_eq!(s.update_debounce, 60);
    assert_eq!(s.watch_dispatcher_first_reconcile, 30);
    assert_eq!(s.watch_dispatcher_reconcile, 1800);
    assert_eq!(s.watch_dispatcher_debounce, 60);
    assert_eq!(s.check_key_timeout, "10s");
    assert_eq!(s.check_key_idle, 60);
    assert_eq!(s.check_key_error_wait, 60);
    assert_eq!(s.checksum_type, "md5");
    assert_eq!(s.key_manager_type, "memory");
    assert!(s.set_deployment_annotations);
    assert!(s.set_deployment_spec_annotations);
    assert!(s.set_deployment_timestamp);
    assert!(!s.set_deployment_spec_timestamp);
}

#[test]
fn settings_overrides() {
    let s = build_settings(
        "dev",
        Some("9090"),
        Some("0"),
        Some("/tls/cert.pem"),
        Some("/tls/key.pem"),
        Some("5"),
        Some("1"),
        Some("900"),
        Some("2"),
        Some("30s"),
        Some("10"),
        Some("15"),
        Some("SHA256"),
        Some("Null"),
        Some("false"),
        Some("FALSE"),
        Some("no-idea"),
        Some("True"),
    );
    assert_eq!(s.port, 9090);
    assert_eq!(s.secure_port, 0);
    assert_eq!(s.certificate, "/tls/cert.pem");
    assert_eq!(s.update_debounce, 5);
    assert_eq!(s.watch_dispatcher_first_reconcile, 1);
    assert_eq!(s.watch_dispatcher_reconcile, 900);
    assert_eq!(s.watch_dispatcher_debounce, 2);
    assert_eq!(s.check_key_timeout, "30s");
    assert_eq!(s.check_key_idle, 10);
    assert_eq!(s.check_key_error_wait, 15);
    assert_eq!(s.checksum_type, "sha256");
    assert_eq!(s.key_manager_type, "null");
    assert!(!s.set_deployment_annotations);
    assert!(!s.set_deployment_spec_annotations);
    // an unrecognised boolean keeps its default
    assert!(s.set_deployment_timestamp);
    assert!(s.set_deployment_spec_timestamp);
}

#[test]
fn unparseable_numbers_fall_back() {
    let s = build_settings(
        "dev",
        Some("eighty"),
        Some("70000"),
        None,
        None,
        Some(""),
        None,
        None,
        None,
        None,
        None,
        None,
        None,
        None,
        None,
        None,
        None,
        None,
    );
    assert_eq!(s.port, 8080);
    assert_eq!(s.secure_port, 8443);
    assert_eq!(s.update_debounce, 60);
}

#[test]
fn server_toggles() {
    let mut s = defaults("dev");
    assert!(s.is_insecure_enabled());
    assert!(!s.is_secure_enabled());
    s.port = 0;
    assert!(!s.is_insecure_enabled());
    s.secure_port = 8443;
    s.certificate = "/tls/cert.pem".to_string();
    assert!(!s.is_secure_enabled());
    s.certificate_key = "/tls/key.pem".to_string();
    assert!(s.is_secure_enabled());
}

#[test]
fn parse_u16_accepts_exact_range() {
    assert_eq!(parse_u16("0"), Some(0));
    assert_eq!(parse_u16("8080"), Some(8080));
    assert_eq!(parse_u16("65535"), Some(65535));
    assert_eq!(parse_u16("65536"), None);
    assert_eq!(parse_u16(""), None);
    assert_eq!(parse_u16("12a"), None);
    assert_eq!(parse_u16("007"), Some(7));
}
