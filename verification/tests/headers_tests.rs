use durable_streams_reference::protocol::error::Error;
use durable_streams_reference::protocol::headers::{
    is_blank, normalize_content_type, parse_bool, parse_expires_at, parse_ttl,
};
use durable_streams_reference::protocol::producer::parse_producer_headers;

#[test]
fn content_types_are_normalized() {
    assert_eq!(normalize_content_type("Application/JSON; charset=utf-8"), "application/json");
    assert_eq!(normalize_content_type("  text/plain  "), "text/plain");
    assert_eq!(normalize_content_type(""), "");
}

#[test]
fn flags_are_true_only_for_true() {
    assert!(parse_bool("true"));
    assert!(parse_bool("TRUE"));
    assert!(!parse_bool("yes"));
    assert!(!parse_bool("1"));
    assert!(is_blank(" \t"));
    assert!(!is_blank(" a "));
}

#[test]
fn ttl_values() {
    assert_eq!(parse_ttl("0").unwrap(), 0);
    assert_eq!(parse_ttl("3600").unwrap(), 3600);
    assert_eq!(parse_ttl("18446744073709551615").unwrap(), u64::MAX);
    for bad in ["", "+5", "-5", "05", "1.5", "18446744073709551616", " 5"] {
        match parse_ttl(bad) {
            Err(Error::InvalidHeader { header, reason }) => {
                assert_eq!(header, "Stream-TTL");
                assert_eq!(reason, "invalid TTL value");
            }
            other => panic!("unexpected for {bad:?}: {other:?}"),
        }
    }
}

#[test]
fn expires_at_values() {
    assert_eq!(parse_expires_at("1970-01-01T00:00:00Z").unwrap(), (0, 0));
    assert_eq!(parse_expires_at("2024-01-01T00:00:00.5+00:00").unwrap(), (1_704_067_200, 500_000_000));
    assert_eq!(parse_expires_at("2024-01-01T01:00:00+01:00").unwrap(), (1_704_067_200, 0));
    assert_eq!(parse_expires_at("2024-01-01T00:00:00.0000001Z").unwrap(), (1_704_067_200, 100));
    assert!(matches!(parse_expires_at("2024-01-01"), Err(Error::InvalidHeader { .. })));
}

#[test]
fn producer_headers_all_or_none() {
    assert!(parse_producer_headers(None, None, None).unwrap().is_none());
    let p = parse_producer_headers(Some("w1"), Some("2"), Some("9")).unwrap().unwrap();
    assert_eq!((p.id.as_str(), p.epoch, p.seq), ("w1", 2, 9));
    match parse_producer_headers(Some("w1"), None, Some("9")) {
        Err(Error::InvalidHeader { header, .. }) => assert_eq!(header, "Producer-Id"),
        other => panic!("unexpected: {other:?}"),
    }
    match parse_producer_headers(Some(""), Some("1"), Some("1")) {
        Err(Error::InvalidHeader { header, reason }) => {
            assert_eq!(header, "Producer-Id");
            assert_eq!(reason, "empty value");
        }
        other => panic!("unexpected: {other:?}"),
    }
    match parse_producer_headers(Some("w"), Some("x"), Some("1")) {
        Err(Error::InvalidHeader { header, .. }) => assert_eq!(header, "Producer-Epoch"),
        other => panic!("unexpected: {other:?}"),
    }
    match parse_producer_headers(Some("w"), Some("1"), Some("-1")) {
        Err(Error::InvalidHeader { header, .. }) => assert_eq!(header, "Producer-Seq"),
        other => panic!("unexpected: {other:?}"),
    }
}
