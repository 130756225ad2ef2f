use master_registry::address::{format_address, probe_url, same_text};

#[test]
fn format_address_joins_host_and_port() {
    assert_eq!(format_address("1.2.3.4", 9000), "1.2.3.4:9000");
    assert_eq!(format_address("example.org", 80), "example.org:80");
}

#[test]
fn format_address_writes_every_width_of_port() {
    assert_eq!(format_address("h", 0), "h:0");
    assert_eq!(format_address("h", 7), "h:7");
    assert_eq!(format_address("h", 9), "h:9");
    assert_eq!(format_address("h", 10), "h:10");
    assert_eq!(format_address("h", 99), "h:99");
    assert_eq!(format_address("h", 100), "h:100");
    assert_eq!(format_address("h", 1005), "h:1005");
    assert_eq!(format_address("h", 10000), "h:10000");
    assert_eq!(format_address("h", 12345), "h:12345");
    assert_eq!(format_address("h", 60789), "h:60789");
    assert_eq!(format_address("h", 65535), "h:65535");
}

#[test]
fn format_address_agrees_with_the_standard_formatting() {
    let mut port: u16 = 0;
    loop {
        assert_eq!(format_address("10.0.0.1", port), format!("{}:{}", "10.0.0.1", port));
        if port == u16::MAX {
            break;
        }
        port += 1;
    }
}

#[test]
fn format_address_takes_any_host() {
    assert_eq!(format_address("", 1), ":1");
    assert_eq!(format_address("::1", 8080), "::1:8080");
    assert_eq!(format_address("h\u{f6}st", 1), "h\u{f6}st:1");
}

#[test]
fn distinct_peers_have_distinct_addresses() {
    assert_ne!(format_address("1.2.3.4", 90), format_address("1.2.3.4:9", 0));
    assert_ne!(format_address("1.2.3.4", 1), format_address("1.2.3.4", 10));
    assert_ne!(format_address("1.2.3.4:1", 0), format_address("1.2.3.4", 10));
}

#[test]
fn probe_url_adds_the_scheme() {
    assert_eq!(probe_url("1.2.3.4", 9000), "http://1.2.3.4:9000");
    assert_eq!(probe_url("example.org", 0), "http://example.org:0");
    assert_eq!(probe_url("h", 65535), "http://h:65535");
}

#[test]
fn same_text_compares_exactly() {
    assert!(same_text("", ""));
    assert!(same_text("abc", "abc"));
    assert!(!same_text("abc", "abd"));
    assert!(!same_text("abc", "ab"));
    assert!(!same_text("ab", "abc"));
    assert!(!same_text("abc", "ABC"));
    assert!(!same_text("", " "));
    assert!(same_text("h\u{f6}st", "h\u{f6}st"));
    assert!(!same_text("h\u{f6}st", "host"));
}
