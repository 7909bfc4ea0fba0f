use durable_streams_reference::protocol::error::Error;
use durable_streams_reference::protocol::offset::Offset;

#[test]
fn test_offset_new() {
    let offset = Offset::new(0, 0);
    assert_eq!(offset.as_str(), "0000000000000000_0000000000000000");

    let offset = Offset::new(1, 42);
    assert_eq!(offset.as_str(), "0000000000000001_000000000000002a");

    let offset = Offset::new(u64::MAX, u64::MAX);
    assert_eq!(offset.as_str(), "ffffffffffffffff_ffffffffffffffff");
}

#[test]
fn test_offset_sentinels() {
    let start = Offset::start();
    assert!(start.is_start());
    assert!(start.is_sentinel());
    assert!(!start.is_now());
    assert_eq!(start.as_str(), "-1");

    let now = Offset::now();
    assert!(now.is_now());
    assert!(now.is_sentinel());
    assert!(!now.is_start());
    assert_eq!(now.as_str(), "now");
}

#[test]
fn test_offset_parse_valid() {
    let offset: Offset = "0000000000000000_0000000000000000".parse().unwrap();
    assert_eq!(offset.as_str(), "0000000000000000_0000000000000000");

    let offset: Offset = "0000000000000001_000000000000002a".parse().unwrap();
    assert_eq!(offset.as_str(), "0000000000000001_000000000000002a");

    let offset: Offset = "-1".parse().unwrap();
    assert!(offset.is_start());

    let offset: Offset = "now".parse().unwrap();
    assert!(offset.is_now());
}

#[test]
fn test_offset_parse_invalid() {
    // Wrong separator
    assert!("0000000000000000-0000000000000000".parse::<Offset>().is_err());

    // Too short
    assert!("000_000".parse::<Offset>().is_err());

    // Too long
    assert!("00000000000000000_0000000000000000".parse::<Offset>().is_err());

    // Uppercase (not canonical)
    assert!("000000000000000A_0000000000000000".parse::<Offset>().is_err());

    // Invalid hex
    assert!("000000000000000g_0000000000000000".parse::<Offset>().is_err());

    // Missing underscore
    assert!("00000000000000000000000000000000".parse::<Offset>().is_err());

    // Extra parts
    assert!(
        "0000000000000000_0000000000000000_0000000000000000"
            .parse::<Offset>()
            .is_err()
    );
}

#[test]
fn test_offset_ordering() {
    let offset1 = Offset::new(0, 0);
    let offset2 = Offset::new(0, 1);
    let offset3 = Offset::new(1, 0);
    let offset4 = Offset::new(1, 1);

    assert!(offset1 < offset2);
    assert!(offset2 < offset3);
    assert!(offset3 < offset4);
    assert!(offset1 < offset4);

    // Lexicographic ordering equals temporal ordering
    assert_eq!(offset1.as_str() < offset2.as_str(), offset1 < offset2);
}

#[test]
fn test_offset_parse_components() {
    let offset = Offset::new(42, 100);
    let (read_seq, byte_offset) = offset.parse_components().unwrap();
    assert_eq!(read_seq, 42);
    assert_eq!(byte_offset, 100);

    // Sentinels return None
    assert!(Offset::start().parse_components().is_none());
    assert!(Offset::now().parse_components().is_none());
}

#[test]
fn test_offset_display() {
    let offset = Offset::new(1, 2);
    assert_eq!(offset.as_str(), "0000000000000001_0000000000000002");

    let start = Offset::start();
    assert_eq!(start.as_str(), "-1");

    let now = Offset::now();
    assert_eq!(now.as_str(), "now");
}

#[test]
fn offset_into_string_gives_its_text() {
    assert_eq!(String::from(Offset::new(1, 2)), "0000000000000001_0000000000000002");
    assert_eq!(String::from(Offset::now()), "now");
}

#[test]
fn offset_errors_are_invalid_offset() {
    assert!(matches!(Offset::parse("xyz"), Err(Error::InvalidOffset(_))));
    assert!(matches!(Offset::parse(""), Err(Error::InvalidOffset(_))));
}

#[test]
fn offset_text_order_matches_component_order() {
    let pairs = [(0u64, 5u64), (0, 16), (1, 0), (1, 15), (255, 0), (256, 1), (u64::MAX, 0)];
    for a in pairs {
        for b in pairs {
            let oa = Offset::new(a.0, a.1);
            let ob = Offset::new(b.0, b.1);
            assert_eq!(oa.as_str() < ob.as_str(), a < b);
            assert_eq!(oa.as_str() == ob.as_str(), a == b);
        }
    }
}

#[test]
fn offset_components_roundtrip() {
    for (a, b) in [(0u64, 0u64), (7, 9), (u64::MAX, 1), (123_456, u64::MAX)] {
        let o = Offset::new(a, b);
        assert_eq!(o.parse_components(), Some((a, b)));
        let again: Offset = o.as_str().parse().unwrap();
        assert_eq!(again, o);
    }
}

fn offset_error(s: &str) -> String {
    match Offset::parse(s) {
        Err(Error::InvalidOffset(m)) => m,
        other => panic!("unexpected: {other:?}"),
    }
}

#[test]
fn offset_error_messages_name_the_problem() {
    assert_eq!(offset_error("abc"), "Expected format 'read_seq_byte_offset', got 'abc'");
    assert_eq!(
        offset_error("000_000"),
        "Expected 16 hex digits for part 1, got 3 digits in '000_000'"
    );
    assert_eq!(
        offset_error("0000000000000000_00"),
        "Expected 16 hex digits for part 2, got 2 digits in '0000000000000000_00'"
    );
    assert_eq!(
        offset_error("000000000000000g_0000000000000000"),
        "Invalid hex character in part 1 of '000000000000000g_0000000000000000'"
    );
    assert_eq!(
        offset_error("000000000000000A_0000000000000000"),
        "Offset must use lowercase hex digits: '000000000000000A_0000000000000000'"
    );
    // Lengths count UTF-8 bytes.
    assert_eq!(offset_error("é_x"), "Expected 16 hex digits for part 1, got 2 digits in 'é_x'");
}
