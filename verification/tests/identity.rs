use actix_web::http::header::HeaderValue;
use master_registry::admission::{validate, Admission};
use master_registry::config::Config;
use master_registry::identity::identity_token;
use master_registry::registry::Registry;

#[test]
fn identity_token_reads_a_text_header() {
    let header = HeaderValue::from_static("ElDewrito/0.6.1.0");
    assert_eq!(identity_token(Some(&header)), Some("ElDewrito/0.6.1.0"));
}

#[test]
fn identity_token_of_no_header_is_none() {
    assert_eq!(identity_token(None), None);
}

#[test]
fn identity_token_of_opaque_bytes_is_none() {
    let header = HeaderValue::from_bytes(b"ElDewrito/\xff0.6.1.0").unwrap();
    assert_eq!(identity_token(Some(&header)), None);
    let header = HeaderValue::from_bytes(b"\x80").unwrap();
    assert_eq!(identity_token(Some(&header)), None);
}

#[test]
fn identity_token_keeps_spaces_and_tabs() {
    let header = HeaderValue::from_bytes(b"a b\tc~").unwrap();
    assert_eq!(identity_token(Some(&header)), Some("a b\tc~"));
}

#[test]
fn identity_token_of_an_empty_header_is_empty() {
    let header = HeaderValue::from_static("");
    assert_eq!(identity_token(Some(&header)), Some(""));
}

#[test]
fn unreadable_identity_counts_as_missing() {
    let allowed = Config::default().allowed_identities;
    let opaque = HeaderValue::from_bytes(b"ElDewrito/0.6.1.0\xfe").unwrap();
    assert_eq!(validate(true, identity_token(Some(&opaque)), &allowed), Admission::MissingIdentity);
    assert_eq!(validate(true, identity_token(None), &allowed), Admission::MissingIdentity);
    let empty = HeaderValue::from_static("");
    assert_eq!(validate(true, identity_token(Some(&empty)), &allowed), Admission::UnknownIdentity);
}

#[test]
fn announce_with_a_header_token() {
    let allowed = Config::default().allowed_identities;
    let header = HeaderValue::from_static("ElDewrito/0.5.1.1");
    let mut registry = Registry::new();
    let outcome =
        registry.announce("1.2.3.4", 9000, true, identity_token(Some(&header)), &allowed, 7);
    assert_eq!(outcome, Admission::Accept);
    assert_eq!(registry.snapshot(7), vec!["1.2.3.4:9000".to_string()]);
    let opaque = HeaderValue::from_bytes(b"\xc3\xa9").unwrap();
    let outcome =
        registry.announce("5.6.7.8", 9000, true, identity_token(Some(&opaque)), &allowed, 8);
    assert_eq!(outcome, Admission::MissingIdentity);
    assert_eq!(registry.snapshot(8), vec!["1.2.3.4:9000".to_string()]);
}
