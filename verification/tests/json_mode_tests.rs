use bytes::Bytes;
use durable_streams_reference::protocol::error::Error;
use durable_streams_reference::protocol::json_mode::{is_json_content_type, process_append, wrap_read};

#[test]
fn test_process_append_single_value() {
    let data = br#"{"event":"click","x":100}"#;
    let result = process_append(data).unwrap();

    assert_eq!(result.len(), 1);
    assert_eq!(result[0], Bytes::from(r#"{"event":"click","x":100}"#));
}

#[test]
fn test_process_append_array_flattening() {
    let data = br#"[{"a":1},{"b":2}]"#;
    let result = process_append(data).unwrap();

    assert_eq!(result.len(), 2);
    assert_eq!(result[0], Bytes::from(r#"{"a":1}"#));
    assert_eq!(result[1], Bytes::from(r#"{"b":2}"#));
}

#[test]
fn test_process_append_empty_array_rejected() {
    let data = b"[]";
    let result = process_append(data);

    assert!(matches!(result, Err(Error::InvalidJson(_))));
}

#[test]
fn test_process_append_invalid_json() {
    let data = b"{invalid}";
    let result = process_append(data);

    assert!(matches!(result, Err(Error::InvalidJson(_))));
}

#[test]
fn test_process_append_nested_arrays_preserved() {
    let data = br#"[{"tags":["a","b"]},{"items":[1,2,3]}]"#;
    let result = process_append(data).unwrap();

    assert_eq!(result.len(), 2);
    assert_eq!(result[0], Bytes::from(r#"{"tags":["a","b"]}"#));
    assert_eq!(result[1], Bytes::from(r#"{"items":[1,2,3]}"#));
}

#[test]
fn test_wrap_read_empty() {
    let messages: Vec<Vec<u8>> = vec![];
    let result = wrap_read(&messages).unwrap();

    assert_eq!(result, Bytes::from("[]"));
}

#[test]
fn test_wrap_read_single_message() {
    let messages = vec![br#"{"a":1}"#.to_vec()];
    let result = wrap_read(&messages).unwrap();

    assert_eq!(result, Bytes::from(r#"[{"a":1}]"#));
}

#[test]
fn test_wrap_read_multiple_messages() {
    let messages = vec![
        br#"{"a":1}"#.to_vec(),
        br#"{"b":2}"#.to_vec(),
        br#"{"c":3}"#.to_vec(),
    ];
    let result = wrap_read(&messages).unwrap();

    assert_eq!(result, Bytes::from(r#"[{"a":1},{"b":2},{"c":3}]"#));
}

#[test]
fn test_is_json_content_type() {
    assert!(is_json_content_type("application/json"));
    assert!(!is_json_content_type("text/plain"));
    assert!(!is_json_content_type("application/xml"));
}

#[test]
fn empty_array_message_is_exact() {
    match process_append(b"[]") {
        Err(Error::InvalidJson(m)) => assert_eq!(m, "empty arrays are not permitted"),
        other => panic!("unexpected: {other:?}"),
    }
}

#[test]
fn process_append_reserializes_compactly() {
    let result = process_append(b" { \"a\" : [ 1 , 2 ] } ").unwrap();
    assert_eq!(result, vec![br#"{"a":[1,2]}"#.to_vec()]);
    let result = process_append(b"[1, \"two\", null]").unwrap();
    assert_eq!(result, vec![b"1".to_vec(), br#""two""#.to_vec(), b"null".to_vec()]);
}

#[test]
fn process_append_scalar_is_one_message() {
    assert_eq!(process_append(b"42").unwrap(), vec![b"42".to_vec()]);
}

#[test]
fn wrap_read_reports_the_first_invalid_message() {
    let messages = vec![b"1".to_vec(), b"{oops".to_vec(), b"also bad".to_vec()];
    match wrap_read(&messages) {
        Err(Error::InvalidJson(m)) => {
            assert!(m.starts_with("stored message is not valid JSON: "));
        }
        other => panic!("unexpected: {other:?}"),
    }
}

#[test]
fn append_then_wrap_gives_back_the_array() {
    let msgs = process_append(br#"[{"a":1},[2,3],"x"]"#).unwrap();
    let body = wrap_read(&msgs).unwrap();
    assert_eq!(body, br#"[{"a":1},[2,3],"x"]"#.to_vec());
}
