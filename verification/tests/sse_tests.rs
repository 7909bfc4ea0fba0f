use durable_streams_reference::protocol::sse::{data_event_text, is_binary_content_type, ControlPayload};

#[test]
fn test_is_binary_text_types() {
    assert!(!is_binary_content_type("text/plain"));
    assert!(!is_binary_content_type("text/html"));
    assert!(!is_binary_content_type("text/csv"));
}

#[test]
fn test_is_binary_json() {
    assert!(!is_binary_content_type("application/json"));
}

#[test]
fn test_is_binary_octet_stream() {
    assert!(is_binary_content_type("application/octet-stream"));
}

#[test]
fn test_is_binary_protobuf() {
    assert!(is_binary_content_type("application/x-protobuf"));
}

#[test]
fn test_is_binary_ndjson() {
    // application/ndjson is not text/* or application/json, so it's binary
    assert!(is_binary_content_type("application/ndjson"));
}

#[test]
fn test_build_data_event_text() {
    assert_eq!(data_event_text(b"hello world", false), "hello world");
}

#[test]
fn test_build_data_event_binary() {
    assert_eq!(data_event_text(&[0x01, 0x02, 0x03], true), "AQID");
}

#[test]
fn data_event_text_replaces_invalid_utf8() {
    assert_eq!(data_event_text(&[b'a', 0xff, b'b'], false), "a\u{fffd}b");
}

#[test]
fn data_event_base64_pads() {
    assert_eq!(data_event_text(b"ab", true), "YWI=");
    assert_eq!(data_event_text(b"", true), "");
}

#[test]
fn is_binary_edge_cases() {
    assert!(is_binary_content_type("text"));
    assert!(!is_binary_content_type("text/"));
    assert!(is_binary_content_type("application/json; charset=utf-8"));
}

#[test]
fn control_payload_holds_its_fields() {
    let payload = ControlPayload {
        stream_next_offset: "abc_123".to_string(),
        stream_cursor: Some("cursor1".to_string()),
        up_to_date: Some(true),
        stream_closed: None,
    };
    assert_eq!(payload.stream_next_offset, "abc_123");
    assert_eq!(payload.stream_cursor.as_deref(), Some("cursor1"));
    assert_eq!(payload.up_to_date, Some(true));
    assert_eq!(payload.stream_closed, None);
}
