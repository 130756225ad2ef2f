use master_registry::admission::{is_allowed, validate, Admission};
use master_registry::config::{
    Config, DEFAULT_BIND_HOST, DEFAULT_BIND_PORT, DEFAULT_PROBE_TIMEOUT_SECS, DEFAULT_TTL_SECS,
    IDENTITY_CURRENT, IDENTITY_PREVIOUS,
};
use master_registry::response::{Response, CODE_OK, LIST_VERSION, MSG_OK};

fn allowed() -> Vec<String> {
    vec!["ElDewrito/0.6.1.0".to_string(), "ElDewrito/0.5.1.1".to_string()]
}

#[test]
fn validate_accepts_a_reachable_peer_with_an_allowed_identity() {
    assert_eq!(validate(true, Some("ElDewrito/0.6.1.0"), &allowed()), Admission::Accept);
    assert_eq!(validate(true, Some("ElDewrito/0.5.1.1"), &allowed()), Admission::Accept);
}

#[test]
fn validate_rejects_an_unreachable_peer() {
    assert_eq!(validate(false, Some("ElDewrito/0.6.1.0"), &allowed()), Admission::Unreachable);
}

#[test]
fn validate_puts_the_probe_before_the_identity() {
    assert_eq!(validate(false, None, &allowed()), Admission::Unreachable);
    assert_eq!(validate(false, Some("nonsense"), &allowed()), Admission::Unreachable);
}

#[test]
fn validate_rejects_a_missing_identity() {
    assert_eq!(validate(true, None, &allowed()), Admission::MissingIdentity);
}

#[test]
fn validate_rejects_an_unknown_identity() {
    assert_eq!(validate(true, Some("Mozilla/5.0"), &allowed()), Admission::UnknownIdentity);
}

#[test]
fn validate_matches_identities_exactly() {
    let list = allowed();
    assert_eq!(validate(true, Some("ElDewrito/0.6.1"), &list), Admission::UnknownIdentity);
    assert_eq!(validate(true, Some("ElDewrito/0.6.1.0 "), &list), Admission::UnknownIdentity);
    assert_eq!(validate(true, Some("eldewrito/0.6.1.0"), &list), Admission::UnknownIdentity);
    assert_eq!(validate(true, Some("ElDewrito/*"), &list), Admission::UnknownIdentity);
    assert_eq!(validate(true, Some("ElDewrito/0.6.1.1"), &list), Admission::UnknownIdentity);
    assert_eq!(validate(true, Some(""), &list), Admission::UnknownIdentity);
}

#[test]
fn validate_with_an_empty_allow_list_accepts_nobody() {
    let nobody: Vec<String> = Vec::new();
    assert_eq!(validate(true, Some("ElDewrito/0.6.1.0"), &nobody), Admission::UnknownIdentity);
    assert_eq!(validate(true, None, &nobody), Admission::MissingIdentity);
    assert_eq!(validate(false, None, &nobody), Admission::Unreachable);
}

#[test]
fn validate_accepts_an_empty_token_only_when_it_is_listed() {
    let list = vec![String::new()];
    assert_eq!(validate(true, Some(""), &list), Admission::Accept);
    assert_eq!(validate(true, Some("x"), &list), Admission::UnknownIdentity);
}

#[test]
fn is_allowed_looks_at_every_entry() {
    let list = vec!["a".to_string(), "b".to_string(), "c".to_string()];
    assert!(is_allowed("a", &list));
    assert!(is_allowed("b", &list));
    assert!(is_allowed("c", &list));
    assert!(!is_allowed("d", &list));
    assert!(!is_allowed("ab", &list));
}

#[test]
fn only_accept_is_accepted() {
    assert!(Admission::Accept.is_accepted());
    assert!(!Admission::Unreachable.is_accepted());
    assert!(!Admission::MissingIdentity.is_accepted());
    assert!(!Admission::UnknownIdentity.is_accepted());
}

#[test]
fn status_names_the_outcome() {
    assert_eq!(Admission::Accept.status(), "success");
    assert_eq!(Admission::Unreachable.status(), "Bad Server");
    assert_eq!(Admission::MissingIdentity.status(), "Bad Headers");
    assert_eq!(Admission::UnknownIdentity.status(), "Bad Headers");
}

#[test]
fn status_tells_unreachable_from_bad_identity() {
    assert_ne!(Admission::Unreachable.status(), Admission::MissingIdentity.status());
    assert_ne!(Admission::Unreachable.status(), Admission::UnknownIdentity.status());
    assert_ne!(Admission::Accept.status(), Admission::Unreachable.status());
    assert_ne!(Admission::Accept.status(), Admission::MissingIdentity.status());
}

#[test]
fn config_defaults() {
    let config = Config::default();
    assert_eq!(config.bind_host, "0.0.0.0");
    assert_eq!(config.bind_port, 8080);
    assert_eq!(config.ttl_secs, 300);
    assert_eq!(config.probe_timeout_secs, 3);
    assert_eq!(
        config.allowed_identities,
        vec!["ElDewrito/0.6.1.0".to_string(), "ElDewrito/0.5.1.1".to_string()]
    );
}

#[test]
fn config_constants() {
    assert_eq!(DEFAULT_BIND_HOST, "0.0.0.0");
    assert_eq!(DEFAULT_BIND_PORT, 8080);
    assert_eq!(DEFAULT_TTL_SECS, 300);
    assert_eq!(DEFAULT_PROBE_TIMEOUT_SECS, 3);
    assert_eq!(IDENTITY_CURRENT, "ElDewrito/0.6.1.0");
    assert_eq!(IDENTITY_PREVIOUS, "ElDewrito/0.5.1.1");
}

#[test]
fn response_listing_carries_the_servers() {
    let response = Response::listing(vec!["a:1".to_string(), "b:2".to_string()]);
    assert_eq!(response.result.list_version, LIST_VERSION);
    assert_eq!(response.result.code, CODE_OK);
    assert_eq!(response.result.msg, MSG_OK);
    assert_eq!(response.result.servers, vec!["a:1".to_string(), "b:2".to_string()]);
    assert_eq!(LIST_VERSION, 1);
    assert_eq!(CODE_OK, 0);
    assert_eq!(MSG_OK, "OK");
}
