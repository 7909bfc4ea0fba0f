use durable_streams_reference::protocol::error::Error;
use durable_streams_reference::protocol::offset::Offset;
use durable_streams_reference::storage::memory::InMemoryStorage;
use durable_streams_reference::storage::{
    CreateStreamResult, ProducerAppendResult, ProducerHeaders, StreamConfig,
};

fn test_storage() -> InMemoryStorage {
    InMemoryStorage::new(1024 * 1024, 100 * 1024)
}

fn producer(id: &str, epoch: u64, seq: u64) -> ProducerHeaders {
    ProducerHeaders { id: id.to_string(), epoch, seq }
}

fn bytes(s: &str) -> Vec<u8> {
    s.as_bytes().to_vec()
}

#[test]
fn memory_test_create_stream() {
    let mut storage = test_storage();
    let config = StreamConfig::new("text/plain".to_string());

    let result = storage.create_stream("test", config.clone()).unwrap();
    assert_eq!(result, CreateStreamResult::Created);
    assert!(storage.stream_exists("test"));

    let result = storage.create_stream("test", config).unwrap();
    assert_eq!(result, CreateStreamResult::AlreadyExists);

    let different_config = StreamConfig::new("application/json".to_string());
    assert!(matches!(storage.create_stream("test", different_config), Err(Error::ConfigMismatch)));
}

#[test]
fn memory_test_append_and_read() {
    let mut storage = test_storage();
    let config = StreamConfig::new("text/plain".to_string());
    storage.create_stream("test", config).unwrap();

    let data1 = bytes("hello");
    let offset1 = storage.append("test", data1.clone(), "text/plain").unwrap();

    let data2 = bytes("world");
    let offset2 = storage.append("test", data2.clone(), "text/plain").unwrap();

    assert!(offset1 < offset2);

    let result = storage.read("test", &Offset::start()).unwrap();
    assert_eq!(result.messages.len(), 2);
    assert_eq!(result.messages[0].data, data1);
    assert_eq!(result.messages[1].data, data2);
    assert!(result.at_tail);
}

#[test]
fn memory_test_offset_monotonicity() {
    let mut storage = test_storage();
    let config = StreamConfig::new("text/plain".to_string());
    storage.create_stream("test", config).unwrap();

    let mut offsets = Vec::new();
    for i in 0..10 {
        let data = format!("message {i}").into_bytes();
        let offset = storage.append("test", data, "text/plain").unwrap();
        offsets.push(offset);
    }

    for i in 1..offsets.len() {
        assert!(offsets[i - 1] < offsets[i], "Offset monotonicity violated");
    }
}

#[test]
fn memory_test_read_from_offset() {
    let mut storage = test_storage();
    let config = StreamConfig::new("text/plain".to_string());
    storage.create_stream("test", config).unwrap();

    let offset1 = storage.append("test", bytes("msg1"), "text/plain").unwrap();
    let offset2 = storage.append("test", bytes("msg2"), "text/plain").unwrap();
    let _offset3 = storage.append("test", bytes("msg3"), "text/plain").unwrap();

    let result = storage.read("test", &offset2).unwrap();
    assert_eq!(result.messages.len(), 2);
    assert_eq!(result.messages[0].data, bytes("msg2"));
    assert_eq!(result.messages[1].data, bytes("msg3"));

    let result = storage.read("test", &offset1).unwrap();
    assert_eq!(result.messages.len(), 3);
}

#[test]
fn memory_test_read_sentinels() {
    let mut storage = test_storage();
    let config = StreamConfig::new("text/plain".to_string());
    storage.create_stream("test", config).unwrap();

    storage.append("test", bytes("msg1"), "text/plain").unwrap();

    let result = storage.read("test", &Offset::now()).unwrap();
    assert_eq!(result.messages.len(), 0);
    assert!(result.at_tail);

    let result = storage.read("test", &Offset::start()).unwrap();
    assert_eq!(result.messages.len(), 1);
}

#[test]
fn memory_test_stream_closed() {
    let mut storage = test_storage();
    let config = StreamConfig::new("text/plain".to_string());
    storage.create_stream("test", config).unwrap();

    storage.close_stream("test").unwrap();

    assert!(matches!(storage.append("test", bytes("data"), "text/plain"), Err(Error::StreamClosed)));

    let result = storage.read("test", &Offset::start()).unwrap();
    assert!(result.closed);
}

#[test]
fn memory_test_content_type_mismatch() {
    let mut storage = test_storage();
    let config = StreamConfig::new("text/plain".to_string());
    storage.create_stream("test", config).unwrap();

    assert!(matches!(
        storage.append("test", bytes("data"), "application/json"),
        Err(Error::ContentTypeMismatch { .. })
    ));

    storage.append("test", bytes("data"), "TEXT/PLAIN").unwrap();
}

#[test]
fn memory_test_memory_limits() {
    let mut storage = InMemoryStorage::new(100, 50);
    let config = StreamConfig::new("text/plain".to_string());
    storage.create_stream("test1", config.clone()).unwrap();
    storage.create_stream("test2", config).unwrap();

    storage.append("test1", vec![0u8; 50], "text/plain").unwrap();

    assert!(matches!(
        storage.append("test1", vec![0u8; 10], "text/plain"),
        Err(Error::StreamSizeLimitExceeded)
    ));

    storage.append("test2", vec![0u8; 40], "text/plain").unwrap();

    assert!(matches!(
        storage.append("test2", vec![0u8; 20], "text/plain"),
        Err(Error::MemoryLimitExceeded)
    ));
}

#[test]
fn memory_test_batch_append_does_not_advance_stream_seq_on_failed_commit() {
    let mut storage = InMemoryStorage::new(1024, 8);
    let config = StreamConfig::new("text/plain".to_string());
    storage.create_stream("test", config).unwrap();

    let oversized = vec![vec![0_u8; 9]];
    let err = storage.batch_append("test", oversized, "text/plain", Some("s1"));
    assert!(matches!(err, Err(Error::StreamSizeLimitExceeded)));

    let retry = vec![bytes("ok")];
    let result = storage.batch_append("test", retry, "text/plain", Some("s1"));
    assert!(result.is_ok(), "retry with same seq should be accepted");
}

#[test]
fn memory_test_producer_append_does_not_advance_stream_seq_on_failed_commit() {
    let mut storage = InMemoryStorage::new(1024, 8);
    let config = StreamConfig::new("text/plain".to_string());
    storage.create_stream("test", config).unwrap();

    let oversized = vec![vec![0_u8; 9]];
    let err = storage.append_with_producer(
        "test",
        oversized,
        "text/plain",
        &producer("p1", 0, 0),
        false,
        Some("s1"),
    );
    assert!(matches!(err, Err(Error::StreamSizeLimitExceeded)));

    let retry = storage.append_with_producer(
        "test",
        vec![bytes("ok")],
        "text/plain",
        &producer("p1", 0, 0),
        false,
        Some("s1"),
    );
    assert!(
        matches!(retry, Ok(ProducerAppendResult::Accepted { .. })),
        "retry with same producer seq and stream seq should succeed"
    );
}

#[test]
fn memory_test_create_with_data_rolls_back_on_memory_limit() {
    let mut storage = InMemoryStorage::new(1024, 8);
    let config = StreamConfig::new("text/plain".to_string());
    let oversized = vec![vec![0_u8; 9]];

    let err = storage.create_stream_with_data("test", config, oversized, false);
    assert!(matches!(err, Err(Error::StreamSizeLimitExceeded)));
    assert!(!storage.stream_exists("test"), "stream must not exist after failed create");
}

#[test]
fn memory_test_create_with_data_closed_is_atomic() {
    let mut storage = test_storage();
    let config = StreamConfig::new("text/plain".to_string()).with_created_closed(true);

    let result = storage.create_stream_with_data("test", config, vec![], true).unwrap();
    assert_eq!(result.status, CreateStreamResult::Created);
    assert!(result.closed, "stream must be closed in result snapshot");

    let meta = storage.head("test").unwrap();
    assert!(meta.closed, "stream must be closed via head()");

    assert!(matches!(storage.append("test", bytes("data"), "text/plain"), Err(Error::StreamClosed)));
}

#[test]
fn memory_test_create_with_data_appends_and_closes() {
    let mut storage = test_storage();
    let config = StreamConfig::new("text/plain".to_string()).with_created_closed(true);
    let messages = vec![bytes("hello"), bytes("world")];

    let result = storage.create_stream_with_data("test", config, messages, true).unwrap();
    assert_eq!(result.status, CreateStreamResult::Created);
    assert!(result.closed);

    let meta = storage.head("test").unwrap();
    assert_eq!(meta.message_count, 2);
    assert!(meta.closed);
}

#[test]
fn memory_test_create_with_data_idempotent_ignores_body() {
    let mut storage = test_storage();
    let config = StreamConfig::new("text/plain".to_string());

    let r1 = storage.create_stream_with_data("test", config.clone(), vec![bytes("a")], false).unwrap();
    assert_eq!(r1.status, CreateStreamResult::Created);

    let r2 = storage.create_stream_with_data("test", config, vec![bytes("b")], false).unwrap();
    assert_eq!(r2.status, CreateStreamResult::AlreadyExists);

    let meta = storage.head("test").unwrap();
    assert_eq!(meta.message_count, 1);
}

#[test]
fn memory_test_delete() {
    let mut storage = test_storage();
    let config = StreamConfig::new("text/plain".to_string());
    storage.create_stream("test", config).unwrap();

    storage.append("test", vec![0u8; 100], "text/plain").unwrap();

    let bytes_before = storage.total_bytes();
    assert!(bytes_before >= 100);

    storage.delete("test").unwrap();
    assert!(!storage.stream_exists("test"));

    let bytes_after = storage.total_bytes();
    assert_eq!(bytes_after, 0);

    assert!(matches!(storage.delete("test"), Err(Error::NotFound(_))));
}

#[test]
fn memory_test_head() {
    let mut storage = test_storage();
    let config = StreamConfig::new("text/plain".to_string());
    storage.create_stream("test", config).unwrap();

    storage.append("test", vec![0u8; 50], "text/plain").unwrap();
    storage.append("test", vec![0u8; 30], "text/plain").unwrap();

    let metadata = storage.head("test").unwrap();
    assert_eq!(metadata.config.content_type, "text/plain");
    assert_eq!(metadata.message_count, 2);
    assert_eq!(metadata.total_bytes, 80);
    assert!(!metadata.closed);

    storage.close_stream("test").unwrap();
    let metadata = storage.head("test").unwrap();
    assert!(metadata.closed);
}

#[test]
fn memory_test_producer_basic_append() {
    let mut storage = test_storage();
    let config = StreamConfig::new("text/plain".to_string());
    storage.create_stream("test", config).unwrap();

    let result = storage
        .append_with_producer("test", vec![bytes("hello")], "text/plain", &producer("p1", 0, 0), false, None)
        .unwrap();

    assert!(matches!(result, ProducerAppendResult::Accepted { epoch: 0, seq: 0, .. }));
}

#[test]
fn memory_test_producer_sequential_appends() {
    let mut storage = test_storage();
    let config = StreamConfig::new("text/plain".to_string());
    storage.create_stream("test", config).unwrap();

    for s in 0..3 {
        let result = storage
            .append_with_producer(
                "test",
                vec![format!("msg{s}").into_bytes()],
                "text/plain",
                &producer("p1", 0, s),
                false,
                None,
            )
            .unwrap();
        assert!(matches!(result, ProducerAppendResult::Accepted { epoch: 0, seq, .. } if seq == s));
    }

    let metadata = storage.head("test").unwrap();
    assert_eq!(metadata.message_count, 3);
}

#[test]
fn memory_test_producer_duplicate_detection() {
    let mut storage = test_storage();
    let config = StreamConfig::new("text/plain".to_string());
    storage.create_stream("test", config).unwrap();

    storage
        .append_with_producer("test", vec![bytes("hello")], "text/plain", &producer("p1", 0, 0), false, None)
        .unwrap();

    let result = storage
        .append_with_producer("test", vec![bytes("hello")], "text/plain", &producer("p1", 0, 0), false, None)
        .unwrap();

    assert!(matches!(result, ProducerAppendResult::Duplicate { epoch: 0, seq: 0, .. }));

    let metadata = storage.head("test").unwrap();
    assert_eq!(metadata.message_count, 1);
}

#[test]
fn memory_test_producer_sequence_gap() {
    let mut storage = test_storage();
    let config = StreamConfig::new("text/plain".to_string());
    storage.create_stream("test", config).unwrap();

    storage
        .append_with_producer("test", vec![bytes("msg0")], "text/plain", &producer("p1", 0, 0), false, None)
        .unwrap();

    let err = storage
        .append_with_producer("test", vec![bytes("msg2")], "text/plain", &producer("p1", 0, 5), false, None)
        .unwrap_err();

    assert!(matches!(err, Error::SequenceGap { expected: 1, actual: 5 }));
}

#[test]
fn memory_test_producer_epoch_fencing() {
    let mut storage = test_storage();
    let config = StreamConfig::new("text/plain".to_string());
    storage.create_stream("test", config).unwrap();

    storage
        .append_with_producer("test", vec![bytes("msg")], "text/plain", &producer("p1", 1, 0), false, None)
        .unwrap();

    let err = storage
        .append_with_producer("test", vec![bytes("zombie")], "text/plain", &producer("p1", 0, 0), false, None)
        .unwrap_err();

    assert!(matches!(err, Error::EpochFenced { current: 1, received: 0 }));
}

#[test]
fn memory_test_producer_epoch_bump_resets_seq() {
    let mut storage = test_storage();
    let config = StreamConfig::new("text/plain".to_string());
    storage.create_stream("test", config).unwrap();

    for seq in 0..3 {
        storage
            .append_with_producer(
                "test",
                vec![format!("e0s{seq}").into_bytes()],
                "text/plain",
                &producer("p1", 0, seq),
                false,
                None,
            )
            .unwrap();
    }

    let result = storage
        .append_with_producer("test", vec![bytes("e1s0")], "text/plain", &producer("p1", 1, 0), false, None)
        .unwrap();

    assert!(matches!(result, ProducerAppendResult::Accepted { epoch: 1, seq: 0, .. }));
}

#[test]
fn memory_test_producer_epoch_bump_with_nonzero_seq() {
    let mut storage = test_storage();
    let config = StreamConfig::new("text/plain".to_string());
    storage.create_stream("test", config).unwrap();

    storage
        .append_with_producer("test", vec![bytes("msg")], "text/plain", &producer("p1", 0, 0), false, None)
        .unwrap();

    let err = storage
        .append_with_producer("test", vec![bytes("bad")], "text/plain", &producer("p1", 1, 5), false, None)
        .unwrap_err();

    assert!(matches!(err, Error::InvalidProducerState(_)));
}

#[test]
fn memory_test_producer_close_with_append() {
    let mut storage = test_storage();
    let config = StreamConfig::new("text/plain".to_string());
    storage.create_stream("test", config).unwrap();

    let result = storage
        .append_with_producer("test", vec![bytes("final")], "text/plain", &producer("p1", 0, 0), true, None)
        .unwrap();

    assert!(matches!(result, ProducerAppendResult::Accepted { epoch: 0, seq: 0, closed: true, .. }));

    let metadata = storage.head("test").unwrap();
    assert!(metadata.closed);
    assert_eq!(metadata.message_count, 1);
}

#[test]
fn memory_test_producer_multiple_producers() {
    let mut storage = test_storage();
    let config = StreamConfig::new("text/plain".to_string());
    storage.create_stream("test", config).unwrap();

    storage
        .append_with_producer("test", vec![bytes("a0")], "text/plain", &producer("a", 0, 0), false, None)
        .unwrap();
    storage
        .append_with_producer("test", vec![bytes("b0")], "text/plain", &producer("b", 0, 0), false, None)
        .unwrap();
    storage
        .append_with_producer("test", vec![bytes("a1")], "text/plain", &producer("a", 0, 1), false, None)
        .unwrap();

    let metadata = storage.head("test").unwrap();
    assert_eq!(metadata.message_count, 3);
}

#[test]
fn memory_test_producer_closed_stream_returns_closed_not_gap() {
    let mut storage = test_storage();
    let config = StreamConfig::new("text/plain".to_string());
    storage.create_stream("test", config).unwrap();

    storage
        .append_with_producer("test", vec![bytes("final")], "text/plain", &producer("p1", 0, 0), true, None)
        .unwrap();

    let err = storage
        .append_with_producer("test", vec![bytes("more")], "text/plain", &producer("p1", 0, 5), false, None)
        .unwrap_err();

    assert!(
        matches!(err, Error::StreamClosed),
        "Closed stream should return StreamClosed even with gap seq, got: {err:?}"
    );
}

#[test]
fn memory_test_producer_new_with_nonzero_seq_is_gap() {
    let mut storage = test_storage();
    let config = StreamConfig::new("text/plain".to_string());
    storage.create_stream("test", config).unwrap();

    let err = storage
        .append_with_producer("test", vec![bytes("bad")], "text/plain", &producer("p1", 0, 3), false, None)
        .unwrap_err();

    assert!(matches!(err, Error::SequenceGap { expected: 0, actual: 3 }));
}

#[test]
fn memory_test_not_found() {
    let mut storage = test_storage();

    assert!(matches!(storage.append("nonexistent", bytes("data"), "text/plain"), Err(Error::NotFound(_))));

    assert!(matches!(storage.read("nonexistent", &Offset::start()), Err(Error::NotFound(_))));

    assert!(matches!(storage.head("nonexistent"), Err(Error::NotFound(_))));

    assert!(matches!(storage.close_stream("nonexistent"), Err(Error::NotFound(_))));
}

#[test]
fn memory_read_offsets_follow_bytes() {
    let mut storage = test_storage();
    storage.create_stream("s", StreamConfig::new("text/plain".to_string())).unwrap();
    let o1 = storage.append("s", bytes("abc"), "text/plain").unwrap();
    let o2 = storage.append("s", bytes("de"), "text/plain").unwrap();
    assert_eq!(o1, Offset::new(0, 0));
    assert_eq!(o2, Offset::new(1, 3));
    let meta = storage.head("s").unwrap();
    assert_eq!(meta.next_offset, Offset::new(2, 5));
    let r = storage.read("s", &Offset::new(1, 3)).unwrap();
    assert_eq!(r.messages.len(), 1);
    assert_eq!(r.messages[0].offset, Offset::new(1, 3));
    assert_eq!(r.next_offset, Offset::new(2, 5));
    let r = storage.read("s", &Offset::new(5, 0)).unwrap();
    assert!(r.messages.is_empty());
}

#[test]
fn memory_batch_append_is_all_or_nothing() {
    let mut storage = InMemoryStorage::new(1024, 10);
    storage.create_stream("s", StreamConfig::new("text/plain".to_string())).unwrap();
    let err = storage.batch_append("s", vec![bytes("12345"), bytes("678901")], "text/plain", None);
    assert!(matches!(err, Err(Error::StreamSizeLimitExceeded)));
    assert_eq!(storage.head("s").unwrap().message_count, 0);
    assert_eq!(storage.total_bytes(), 0);
    let next = storage.batch_append("s", vec![bytes("12345"), bytes("67")], "text/plain", None).unwrap();
    assert_eq!(next, Offset::new(2, 7));
}

#[test]
fn memory_batch_append_rejects_empty_batch() {
    let mut storage = test_storage();
    storage.create_stream("s", StreamConfig::new("text/plain".to_string())).unwrap();
    match storage.batch_append("s", vec![], "text/plain", None) {
        Err(Error::InvalidHeader { header, reason }) => {
            assert_eq!(header, "Content-Length");
            assert_eq!(reason, "batch cannot be empty");
        }
        other => panic!("unexpected: {other:?}"),
    }
}

#[test]
fn memory_stream_seq_must_increase() {
    let mut storage = test_storage();
    storage.create_stream("s", StreamConfig::new("text/plain".to_string())).unwrap();
    storage.batch_append("s", vec![bytes("a")], "text/plain", Some("b")).unwrap();
    let err = storage.batch_append("s", vec![bytes("x")], "text/plain", Some("a"));
    assert!(matches!(err, Err(Error::SeqOrderingViolation { .. })));
    storage.batch_append("s", vec![bytes("y")], "text/plain", Some("c")).unwrap();
}

#[test]
fn memory_expired_stream_is_refused_then_replaced() {
    let mut storage = test_storage();
    let config = StreamConfig::new("text/plain".to_string()).with_expires_at((1, 0));
    storage.create_stream_at("s", config, 0).unwrap();
    assert!(storage.exists_at("s", 999));
    assert!(!storage.exists_at("s", 1000));
    assert!(matches!(storage.append_at("s", bytes("x"), "text/plain", 1000), Err(Error::StreamExpired)));
    assert!(matches!(storage.read_at("s", &Offset::start(), 2000), Err(Error::StreamExpired)));
    let fresh = StreamConfig::new("application/json".to_string());
    assert_eq!(storage.create_stream_at("s", fresh, 2000).unwrap(), CreateStreamResult::Created);
}

#[test]
fn memory_duplicate_reports_the_next_offset_and_closed_flag() {
    let mut storage = test_storage();
    storage.create_stream("s", StreamConfig::new("text/plain".to_string())).unwrap();
    storage
        .append_with_producer("s", vec![bytes("abc")], "text/plain", &producer("p", 0, 0), false, None)
        .unwrap();
    let dup = storage
        .append_with_producer("s", vec![bytes("abc")], "text/plain", &producer("p", 0, 0), false, None)
        .unwrap();
    assert_eq!(
        dup,
        ProducerAppendResult::Duplicate { epoch: 0, seq: 0, next_offset: Offset::new(1, 3), closed: false }
    );
}

#[test]
fn memory_expiry_differing_below_a_millisecond_is_a_mismatch() {
    let mut storage = test_storage();
    let a = StreamConfig::new("text/plain".to_string()).with_expires_at((4_102_444_800, 100));
    let b = StreamConfig::new("text/plain".to_string()).with_expires_at((4_102_444_800, 200));
    assert_eq!(storage.create_stream_at("s", a.clone(), 0).unwrap(), CreateStreamResult::Created);
    assert_eq!(storage.create_stream_at("s", a, 0).unwrap(), CreateStreamResult::AlreadyExists);
    assert!(matches!(storage.create_stream_at("s", b, 0), Err(Error::ConfigMismatch)));
}

#[test]
fn memory_expiry_counts_nanoseconds_against_the_clock() {
    let mut storage = test_storage();
    let config = StreamConfig::new("text/plain".to_string()).with_expires_at((1, 500_000));
    storage.create_stream_at("s", config, 0).unwrap();
    assert!(storage.exists_at("s", 1000));
    assert!(!storage.exists_at("s", 1001));
}

#[test]
fn memory_append_then_head_and_read_agree() {
    let mut storage = test_storage();
    storage.create_stream("s", StreamConfig::new("text/plain".to_string())).unwrap();
    storage.append("s", bytes("hello"), "text/plain").unwrap();
    let before = storage.head("s").unwrap();
    let total = storage.total_bytes();
    let r = storage.append("s", bytes("abc"), "text/plain").unwrap();
    assert_eq!(r, before.next_offset);
    let after = storage.head("s").unwrap();
    assert_eq!(after.message_count, before.message_count + 1);
    assert_eq!(after.total_bytes, before.total_bytes + 3);
    assert!(after.next_offset > before.next_offset);
    assert_eq!(after.next_offset, Offset::new(2, 8));
    assert_eq!(storage.total_bytes(), total + 3);
    let read = storage.read("s", &Offset::start()).unwrap();
    let last = read.messages.last().unwrap();
    assert_eq!(last.offset, r);
    assert_eq!(last.data, bytes("abc"));
    assert_eq!(read.next_offset, after.next_offset);
    let again = storage.read("s", &read.next_offset).unwrap();
    assert!(again.messages.is_empty());
    let from_second = storage.read("s", &Offset::new(1, 5)).unwrap();
    assert_eq!(from_second.messages.len(), 1);
    assert!(storage.read("s", &Offset::now()).unwrap().messages.is_empty());
}
