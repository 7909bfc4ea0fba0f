use durable_streams_reference::handlers::get::{
    build_body, catch_up_response, check_live, data_response, etag_matches, generate_etag, long_poll_step,
    no_content_response, not_modified_response, LongPollStep,
};
use durable_streams_reference::handlers::post::{
    append_body_messages, append_content_type, append_response, epoch_fenced_response,
    producer_response, sequence_gap_response, stream_closed_response,
};
use durable_streams_reference::handlers::put::{
    build_location_url, create_config, create_content_type, create_response, initial_messages,
};
use durable_streams_reference::handlers::security_headers;
use durable_streams_reference::handlers::delete::delete_outcome;
use durable_streams_reference::handlers::put::{close_after_create, create_follow_up, ttl_in_range};
use durable_streams_reference::storage::CreateStreamResult;
use durable_streams_reference::handlers::post::{
    append_failure, plain_append_step, producer_failure, AppendFailure, PlainAppendStep,
};
use durable_streams_reference::handlers::head::head_response;
use durable_streams_reference::storage::{StreamConfig, StreamMetadata};
use durable_streams_reference::protocol::error::Error;
use durable_streams_reference::protocol::offset::Offset;
use durable_streams_reference::storage::{Message, ProducerAppendResult, ReadResult};

fn pairs(hs: &[(String, String)]) -> Vec<(&str, &str)> {
    hs.iter().map(|(a, b)| (a.as_str(), b.as_str())).collect()
}

fn read(messages: Vec<(&str, u64, u64)>, next: Offset, at_tail: bool, closed: bool) -> ReadResult {
    ReadResult {
        messages: messages
            .into_iter()
            .map(|(d, a, b)| Message::new(Offset::new(a, b), d.as_bytes().to_vec()))
            .collect(),
        next_offset: next,
        at_tail,
        closed,
    }
}

#[test]
fn create_content_type_defaults_and_normalizes() {
    assert_eq!(create_content_type(None).unwrap(), "application/octet-stream");
    assert_eq!(create_content_type(Some("Text/Plain; charset=utf-8")).unwrap(), "text/plain");
    match create_content_type(Some("  ")) {
        Err(Error::InvalidHeader { header, reason }) => {
            assert_eq!(header, "Content-Type");
            assert_eq!(reason, "empty value");
        }
        other => panic!("unexpected: {other:?}"),
    }
}

#[test]
fn create_config_applies_ttl_from_now() {
    let c = create_config("text/plain".to_string(), Some("60"), None, None, 1_000).unwrap();
    assert_eq!(c.ttl_seconds, Some(60));
    assert_eq!(c.expires_at, Some((61, 0)));
    assert!(!c.created_closed);
    let c = create_config("text/plain".to_string(), Some("1"), None, None, -1_500).unwrap();
    assert_eq!(c.expires_at, Some((-1, 500_000_000)));
    let c = create_config("text/plain".to_string(), Some("0"), None, None, 2_250).unwrap();
    assert_eq!(c.expires_at, Some((2, 250_000_000)));
}

#[test]
fn create_config_takes_absolute_expiry() {
    let c = create_config("text/plain".to_string(), None, Some("1970-01-01T00:00:01Z"), Some("true"), 0)
        .unwrap();
    assert_eq!(c.ttl_seconds, None);
    assert_eq!(c.expires_at, Some((1, 0)));
    assert!(c.created_closed);
}

#[test]
fn create_config_refuses_conflicts_and_bad_values() {
    assert!(matches!(
        create_config("a/b".to_string(), Some("5"), Some("2030-01-01T00:00:00Z"), None, 0),
        Err(Error::ConflictingExpiration)
    ));
    assert!(matches!(
        create_config("a/b".to_string(), Some("05"), None, None, 0),
        Err(Error::InvalidHeader { .. })
    ));
    assert!(matches!(
        create_config("a/b".to_string(), Some("-1"), None, None, 0),
        Err(Error::InvalidHeader { .. })
    ));
    assert!(matches!(
        create_config("a/b".to_string(), None, Some("yesterday"), None, 0),
        Err(Error::InvalidHeader { .. })
    ));
    // A malformed TTL is reported before the conflict.
    match create_config("a/b".to_string(), Some("x"), Some("2030-01-01T00:00:00Z"), None, 0) {
        Err(Error::InvalidHeader { header, .. }) => assert_eq!(header, "Stream-TTL"),
        other => panic!("unexpected: {other:?}"),
    }
}

#[test]
fn initial_messages_only_for_new_non_empty_bodies() {
    assert!(initial_messages(false, b"abc".to_vec(), "text/plain").unwrap().is_empty());
    assert!(initial_messages(true, vec![], "text/plain").unwrap().is_empty());
    assert_eq!(initial_messages(true, b"abc".to_vec(), "text/plain").unwrap(), vec![b"abc".to_vec()]);
    assert_eq!(
        initial_messages(true, b"[1,2]".to_vec(), "application/json").unwrap(),
        vec![b"1".to_vec(), b"2".to_vec()]
    );
    assert!(matches!(
        initial_messages(true, b"[]".to_vec(), "application/json"),
        Err(Error::InvalidJson(_))
    ));
}

#[test]
fn location_url_uses_forwarded_headers() {
    assert_eq!(build_location_url(None, None, "s1"), "http://localhost/v1/stream/s1");
    assert_eq!(
        build_location_url(Some("https"), Some("example.com:8443"), "a/b"),
        "https://example.com:8443/v1/stream/a/b"
    );
}

#[test]
fn create_response_statuses_and_headers() {
    let r = create_response(true, "text/plain", &Offset::new(0, 0), false, "http://h/v1/stream/x");
    assert_eq!(r.status, 201);
    assert_eq!(
        pairs(&r.headers),
        vec![
            ("content-type", "text/plain"),
            ("Stream-Next-Offset", "0000000000000000_0000000000000000"),
            ("location", "http://h/v1/stream/x"),
        ]
    );
    let r = create_response(false, "text/plain", &Offset::new(1, 2), true, "u");
    assert_eq!(r.status, 200);
    assert_eq!(r.headers.last().unwrap(), &("Stream-Closed".to_string(), "true".to_string()));
}

#[test]
fn append_content_type_is_required() {
    assert_eq!(append_content_type(Some("TEXT/Plain ; x=y")).unwrap(), "text/plain");
    match append_content_type(None) {
        Err(Error::InvalidHeader { header, reason }) => {
            assert_eq!(header, "Content-Type");
            assert_eq!(reason, "missing required header");
        }
        other => panic!("unexpected: {other:?}"),
    }
}

#[test]
fn append_body_rules() {
    match append_body_messages(vec![], false, "text/plain") {
        Err(Error::InvalidHeader { header, reason }) => {
            assert_eq!(header, "Content-Length");
            assert_eq!(reason, "empty body requires Stream-Closed header");
        }
        other => panic!("unexpected: {other:?}"),
    }
    assert!(append_body_messages(vec![], true, "text/plain").unwrap().is_empty());
    assert_eq!(append_body_messages(b"x".to_vec(), false, "text/plain").unwrap(), vec![b"x".to_vec()]);
    assert_eq!(
        append_body_messages(br#"[{"a":1},2]"#.to_vec(), false, "application/json").unwrap(),
        vec![br#"{"a":1}"#.to_vec(), b"2".to_vec()]
    );
}

#[test]
fn append_and_producer_responses() {
    let r = append_response(&Offset::new(2, 10), false);
    assert_eq!(r.status, 204);
    assert_eq!(pairs(&r.headers), vec![("Stream-Next-Offset", "0000000000000002_000000000000000a")]);

    let r = append_response(&Offset::new(1, 13), true);
    assert_eq!(r.status, 204);
    assert_eq!(
        pairs(&r.headers),
        vec![("Stream-Next-Offset", "0000000000000001_000000000000000d"), ("Stream-Closed", "true")]
    );

    let accepted = ProducerAppendResult::Accepted { epoch: 3, seq: 12, next_offset: Offset::new(1, 1), closed: true };
    let r = producer_response(&accepted);
    assert_eq!(r.status, 200);
    assert_eq!(
        pairs(&r.headers),
        vec![
            ("Stream-Next-Offset", "0000000000000001_0000000000000001"),
            ("Producer-Epoch", "3"),
            ("Producer-Seq", "12"),
            ("Stream-Closed", "true"),
        ]
    );
    let dup = ProducerAppendResult::Duplicate { epoch: 0, seq: 0, next_offset: Offset::new(1, 1), closed: false };
    let r = producer_response(&dup);
    assert_eq!(r.status, 204);
    assert_eq!(r.headers.len(), 3);
}

#[test]
fn producer_error_responses() {
    let r = stream_closed_response(&Offset::new(4, 4));
    assert_eq!(r.status, 409);
    assert_eq!(r.body, b"Stream is closed".to_vec());
    assert_eq!(
        pairs(&r.headers),
        vec![("Stream-Closed", "true"), ("Stream-Next-Offset", "0000000000000004_0000000000000004")]
    );
    let r = epoch_fenced_response(7);
    assert_eq!(r.status, 403);
    assert_eq!(r.body, b"Producer epoch fenced".to_vec());
    assert_eq!(pairs(&r.headers), vec![("Producer-Epoch", "7")]);
    let r = sequence_gap_response(1, 5);
    assert_eq!(r.status, 409);
    assert_eq!(r.body, b"Producer sequence gap".to_vec());
    assert_eq!(pairs(&r.headers), vec![("Producer-Expected-Seq", "1"), ("Producer-Received-Seq", "5")]);
}

#[test]
fn live_mode_checks() {
    assert!(!check_live(None).unwrap());
    assert!(check_live(Some("long-poll")).unwrap());
    match check_live(Some("sse")) {
        Err(Error::InvalidHeader { header, reason }) => {
            assert_eq!(header, "live");
            assert_eq!(reason, "unsupported live mode: sse");
        }
        other => panic!("unexpected: {other:?}"),
    }
}

#[test]
fn etags_mark_closed_tails() {
    let r = read(vec![], Offset::new(1, 5), true, false);
    assert_eq!(generate_etag("-1", &r), "\"-1:0000000000000001_0000000000000005\"");
    let r = read(vec![], Offset::new(1, 5), true, true);
    let tag = generate_etag("-1", &r);
    assert_eq!(tag, "\"-1:0000000000000001_0000000000000005:c\"");
    assert!(etag_matches(Some(tag.as_str()), &tag));
    assert!(!etag_matches(None, &tag));
    assert!(!etag_matches(Some("\"x\""), &tag));
}

#[test]
fn bodies_concatenate_or_wrap() {
    let r = read(vec![("ab", 0, 0), ("cd", 1, 2)], Offset::new(2, 4), true, false);
    assert_eq!(build_body(&r, "text/plain").unwrap(), b"abcd".to_vec());
    let r = read(vec![("1", 0, 0), ("{\"a\":2}", 1, 1)], Offset::new(2, 8), true, false);
    assert_eq!(build_body(&r, "application/json").unwrap(), br#"[1,{"a":2}]"#.to_vec());
    let r = read(vec![], Offset::new(0, 0), true, false);
    assert_eq!(build_body(&r, "application/json").unwrap(), b"[]".to_vec());
    assert!(build_body(&r, "text/plain").unwrap().is_empty());
}

#[test]
fn data_response_headers() {
    let r = read(vec![("ab", 0, 0)], Offset::new(1, 2), true, true);
    let resp = data_response(&r, "text/plain", "\"t\"", Some("99")).unwrap();
    assert_eq!(resp.status, 200);
    assert_eq!(resp.body, b"ab".to_vec());
    assert_eq!(
        pairs(&resp.headers),
        vec![
            ("content-type", "text/plain"),
            ("Stream-Next-Offset", "0000000000000001_0000000000000002"),
            ("Stream-Up-To-Date", "true"),
            ("etag", "\"t\""),
            ("cache-control", "no-store"),
            ("Stream-Closed", "true"),
            ("Stream-Cursor", "99"),
        ]
    );
    let r = read(vec![("{", 0, 0)], Offset::new(1, 1), false, false);
    assert!(matches!(data_response(&r, "application/json", "e", None), Err(Error::InvalidJson(_))));
}

#[test]
fn not_modified_and_no_content() {
    let r = read(vec![], Offset::new(3, 3), true, false);
    let resp = not_modified_response(&r);
    assert_eq!(resp.status, 304);
    assert_eq!(
        pairs(&resp.headers),
        vec![("Stream-Next-Offset", "0000000000000003_0000000000000003"), ("Stream-Up-To-Date", "true")]
    );
    let resp = no_content_response(&Offset::new(3, 3), true, "7");
    assert_eq!(resp.status, 204);
    assert_eq!(
        pairs(&resp.headers),
        vec![
            ("Stream-Next-Offset", "0000000000000003_0000000000000003"),
            ("Stream-Up-To-Date", "true"),
            ("Stream-Closed", "true"),
            ("Stream-Cursor", "7"),
        ]
    );
}

#[test]
fn long_poll_steps() {
    assert_eq!(long_poll_step(&read(vec![("a", 0, 0)], Offset::new(1, 1), true, true)), LongPollStep::Respond);
    assert_eq!(long_poll_step(&read(vec![], Offset::new(1, 1), true, true)), LongPollStep::Closed);
    assert_eq!(long_poll_step(&read(vec![], Offset::new(1, 1), true, false)), LongPollStep::Wait);
}

#[test]
fn security_header_values() {
    let hs = security_headers();
    assert_eq!(
        pairs(&hs),
        vec![("X-Content-Type-Options", "nosniff"), ("Cross-Origin-Resource-Policy", "cross-origin")]
    );
}

#[test]
fn delete_is_idempotent() {
    assert!(delete_outcome(Ok(())).is_ok());
    assert!(delete_outcome(Err(Error::NotFound("x".to_string()))).is_ok());
    assert!(matches!(delete_outcome(Err(Error::Storage("disk".to_string()))), Err(Error::Storage(_))));
}

#[test]
fn ttl_range_check() {
    assert!(ttl_in_range(None, 0));
    assert!(ttl_in_range(Some("junk"), 0));
    assert!(ttl_in_range(Some("9223372036854775"), 0));
    assert!(!ttl_in_range(Some("9223372036854776"), 0));
    assert!(!ttl_in_range(Some("18446744073709551615"), 5));
}

#[test]
fn error_statuses() {
    assert_eq!(Error::NotFound("s".to_string()).status(), 404);
    assert_eq!(Error::StreamExpired.status(), 404);
    assert_eq!(Error::InvalidOffset("o".to_string()).status(), 400);
    assert_eq!(Error::ConflictingExpiration.status(), 400);
    assert_eq!(Error::EpochFenced { current: 2, received: 1 }.status(), 403);
    assert_eq!(Error::StreamClosed.status(), 409);
    assert_eq!(Error::SequenceGap { expected: 1, actual: 3 }.status(), 409);
    assert_eq!(Error::MemoryLimitExceeded.status(), 413);
    assert_eq!(Error::Storage("x".to_string()).status(), 500);
}

#[test]
fn append_failures_are_answered() {
    assert!(matches!(producer_failure(Error::StreamClosed), AppendFailure::Closed));
    match producer_failure(Error::EpochFenced { current: 4, received: 2 }) {
        AppendFailure::Respond(r) => {
            assert_eq!(r.status, 403);
            assert_eq!(pairs(&r.headers), vec![("Producer-Epoch", "4")]);
        }
        other => panic!("unexpected: {other:?}"),
    }
    match producer_failure(Error::SequenceGap { expected: 2, actual: 9 }) {
        AppendFailure::Respond(r) => {
            assert_eq!(r.status, 409);
            assert_eq!(pairs(&r.headers), vec![("Producer-Expected-Seq", "2"), ("Producer-Received-Seq", "9")]);
        }
        other => panic!("unexpected: {other:?}"),
    }
    assert!(matches!(producer_failure(Error::StreamExpired), AppendFailure::Fail(Error::StreamExpired)));
    assert!(matches!(append_failure(Error::StreamClosed), AppendFailure::Closed));
    assert!(matches!(
        append_failure(Error::EpochFenced { current: 1, received: 0 }),
        AppendFailure::Fail(Error::EpochFenced { .. })
    ));
}

#[test]
fn create_closes_only_new_closed_streams() {
    assert!(close_after_create(true, true));
    assert!(!close_after_create(false, true));
    assert!(!close_after_create(true, false));
}

#[test]
fn head_response_headers() {
    let m = StreamMetadata {
        config: StreamConfig::new("text/plain".to_string()),
        next_offset: Offset::new(1, 4),
        closed: true,
        total_bytes: 4,
        message_count: 1,
        created_at: 0,
    };
    let r = head_response(&m);
    assert_eq!(r.status, 200);
    assert_eq!(
        pairs(&r.headers),
        vec![
            ("content-type", "text/plain"),
            ("Stream-Next-Offset", "0000000000000001_0000000000000004"),
            ("Stream-Closed", "true"),
        ]
    );
}

#[test]
fn etags_differ_when_the_read_position_differs() {
    let a = read(vec![], Offset::new(1, 5), true, false);
    let b = read(vec![], Offset::new(1, 6), true, false);
    let c = read(vec![], Offset::new(1, 5), true, true);
    let ta = generate_etag("-1", &a);
    assert_ne!(ta, generate_etag("-1", &b));
    assert_ne!(ta, generate_etag("-1", &c));
    assert_eq!(ta, generate_etag("-1", &read(vec![], Offset::new(1, 5), false, true)));
}

#[test]
fn catch_up_answers_304_only_for_the_current_etag() {
    let r = read(vec![("Hello, world!", 0, 0)], Offset::new(1, 13), true, false);
    let etag = "\"-1:0000000000000001_000000000000000d\"";
    let hit = catch_up_response(&r, "-1", "text/plain", Some(etag), None).unwrap();
    assert_eq!(hit.status, 304);
    assert!(hit.body.is_empty());
    assert_eq!(
        pairs(&hit.headers),
        vec![("Stream-Next-Offset", "0000000000000001_000000000000000d"), ("Stream-Up-To-Date", "true")]
    );
    let miss = catch_up_response(&r, "-1", "text/plain", Some("\"-1:old\""), None).unwrap();
    assert_eq!(miss.status, 200);
    assert_eq!(miss.body, b"Hello, world!".to_vec());
    assert_eq!(
        pairs(&miss.headers),
        vec![
            ("content-type", "text/plain"),
            ("Stream-Next-Offset", "0000000000000001_000000000000000d"),
            ("Stream-Up-To-Date", "true"),
            ("etag", etag),
            ("cache-control", "no-store"),
        ]
    );
    let none = catch_up_response(&r, "-1", "text/plain", None, None).unwrap();
    assert_eq!(none.status, 200);
}

#[test]
fn plain_append_closes_only_after_a_stored_append() {
    match plain_append_step(Ok(Offset::new(1, 13)), true) {
        PlainAppendStep::CloseThenAnswer(o) => assert_eq!(o, Offset::new(1, 13)),
        other => panic!("unexpected: {other:?}"),
    }
    match plain_append_step(Ok(Offset::new(1, 13)), false) {
        PlainAppendStep::Answer(r) => {
            assert_eq!(r.status, 204);
            assert_eq!(pairs(&r.headers), vec![("Stream-Next-Offset", "0000000000000001_000000000000000d")]);
        }
        other => panic!("unexpected: {other:?}"),
    }
    assert!(matches!(
        plain_append_step(Err(Error::StreamClosed), true),
        PlainAppendStep::Failed(AppendFailure::Closed)
    ));
    assert!(matches!(
        plain_append_step(Err(Error::StreamExpired), true),
        PlainAppendStep::Failed(AppendFailure::Fail(Error::StreamExpired))
    ));
}

#[test]
fn create_follow_up_stores_and_closes_only_new_streams() {
    let f = create_follow_up(CreateStreamResult::Created, b"hi".to_vec(), "text/plain", true).unwrap();
    assert_eq!(f.messages, vec![b"hi".to_vec()]);
    assert!(f.close);
    let f = create_follow_up(CreateStreamResult::AlreadyExists, b"hi".to_vec(), "text/plain", true).unwrap();
    assert!(f.messages.is_empty());
    assert!(!f.close);
    let f = create_follow_up(CreateStreamResult::Created, br#"[1,2]"#.to_vec(), "application/json", false)
        .unwrap();
    assert_eq!(f.messages, vec![b"1".to_vec(), b"2".to_vec()]);
    assert!(!f.close);
    assert!(matches!(
        create_follow_up(CreateStreamResult::Created, b"[".to_vec(), "application/json", false),
        Err(Error::InvalidJson(_))
    ));
}
