use durable_streams_reference::protocol::error::Error;
use durable_streams_reference::protocol::offset::Offset;
use durable_streams_reference::storage::file_layout::stream_dir_name;
use durable_streams_reference::storage::log_index::LogIndex;
use durable_streams_reference::storage::records::{encode_records, scan_log};
use durable_streams_reference::storage::file_stream::FileStream;
use durable_streams_reference::storage::memory::InMemoryStorage;
use durable_streams_reference::storage::producers::ProducerBook;
use durable_streams_reference::storage::ProducerAppendResult;
use durable_streams_reference::storage::{
    check_batch_nonempty, check_budget, check_open_stream, ProducerCheck, ProducerHeaders, ProducerState, StreamConfig,
};

#[test]
fn records_are_length_prefixed_little_endian() {
    let buf = encode_records(&[b"ab".to_vec(), vec![], b"xyz".to_vec()]).unwrap();
    assert_eq!(buf, vec![2, 0, 0, 0, b'a', b'b', 0, 0, 0, 0, 3, 0, 0, 0, b'x', b'y', b'z']);
    assert!(encode_records(&[]).unwrap().is_empty());
}

#[test]
fn scan_finds_every_complete_record() {
    let buf = encode_records(&[b"ab".to_vec(), b"xyz".to_vec()]).unwrap();
    let (spans, valid) = scan_log(&buf);
    assert_eq!(spans, vec![(4, 2), (10, 3)]);
    assert_eq!(valid, buf.len() as u64);
}

#[test]
fn scan_stops_before_a_torn_record() {
    let mut buf = encode_records(&[b"ab".to_vec()]).unwrap();
    let good = buf.len() as u64;
    // A header announcing 9 bytes with only 2 written.
    buf.extend_from_slice(&[9, 0, 0, 0, 1, 2]);
    let (spans, valid) = scan_log(&buf);
    assert_eq!(spans, vec![(4, 2)]);
    assert_eq!(valid, good);
    // A header cut in the middle.
    let mut buf2 = encode_records(&[b"ab".to_vec()]).unwrap();
    buf2.extend_from_slice(&[1, 0]);
    assert_eq!(scan_log(&buf2), (vec![(4, 2)], good));
}

#[test]
fn rebuilt_index_gives_offsets_and_positions() {
    let buf = encode_records(&[b"hello".to_vec(), b"world!".to_vec()]).unwrap();
    let (idx, valid) = LogIndex::rebuild(&buf);
    assert_eq!(valid, 19);
    assert_eq!(idx.len(), 2);
    assert_eq!(idx.message_count(), 2);
    assert_eq!(idx.total_bytes(), 11);
    assert_eq!(idx.entry(0).offset, Offset::new(0, 0));
    assert_eq!(idx.entry(1).offset, Offset::new(1, 5));
    assert_eq!((idx.entry(1).file_pos, idx.entry(1).byte_len), (13, 6));
    assert_eq!(idx.next_offset(), Offset::new(2, 11));
}

#[test]
fn pushed_batch_matches_a_rebuild() {
    let first = encode_records(&[b"abc".to_vec()]).unwrap();
    let (mut idx, valid) = LogIndex::rebuild(&first);
    let batch = [b"de".to_vec(), b"f".to_vec()];
    let more = encode_records(&batch).unwrap();
    idx.push_batch(valid, &[2, 1]);
    let mut log = first.clone();
    log.extend_from_slice(&more);
    let (again, _) = LogIndex::rebuild(&log);
    assert_eq!(idx.len(), again.len());
    for i in 0..idx.len() {
        assert_eq!(idx.entry(i).offset, again.entry(i).offset);
        assert_eq!(idx.entry(i).file_pos, again.entry(i).file_pos);
        assert_eq!(idx.entry(i).byte_len, again.entry(i).byte_len);
    }
}

#[test]
fn start_index_follows_offsets() {
    let buf = encode_records(&[b"aa".to_vec(), b"bb".to_vec(), b"cc".to_vec()]).unwrap();
    let (idx, _) = LogIndex::rebuild(&buf);
    assert_eq!(idx.start_index(&Offset::start()), 0);
    assert_eq!(idx.start_index(&Offset::now()), 3);
    assert_eq!(idx.start_index(&Offset::new(1, 2)), 1);
    assert_eq!(idx.start_index(&Offset::new(1, 1)), 1);
    assert_eq!(idx.start_index(&Offset::new(1, 3)), 2);
    assert_eq!(idx.start_index(&Offset::new(9, 0)), 3);
}

#[test]
fn stream_directories_are_base64url() {
    assert_eq!(stream_dir_name("test").unwrap(), "dGVzdA");
    assert_eq!(stream_dir_name("a/../b").unwrap(), "YS8uLi9i");
    assert_eq!(stream_dir_name("").unwrap(), "");
    assert_eq!(stream_dir_name("\u{ff}\u{fe}").unwrap(), "w7_Dvg");
}

#[test]
fn budgets_check_store_then_stream() {
    assert!(check_budget(90, 0, 10, 100, 50).is_ok());
    assert!(matches!(check_budget(91, 0, 10, 100, 50), Err(Error::MemoryLimitExceeded)));
    assert!(matches!(check_budget(0, 45, 10, 100, 50), Err(Error::StreamSizeLimitExceeded)));
    assert!(matches!(check_budget(95, 45, 10, 100, 50), Err(Error::MemoryLimitExceeded)));
    assert!(matches!(check_budget(0, 0, u64::MAX, u64::MAX - 1, u64::MAX), Err(Error::MemoryLimitExceeded)));
}

#[test]
fn open_stream_checks_in_order() {
    let c = StreamConfig::new("text/plain".to_string()).with_expires_at((0, 10_000_000));
    assert!(matches!(check_open_stream(&c, true, "x/y", 10), Err(Error::StreamExpired)));
    assert!(matches!(check_open_stream(&c, true, "x/y", 9), Err(Error::StreamClosed)));
    assert!(matches!(check_open_stream(&c, false, "x/y", 9), Err(Error::ContentTypeMismatch { .. })));
    assert!(check_open_stream(&c, false, "text/plain", 9).is_ok());
}

fn producer(id: &str, epoch: u64, seq: u64) -> ProducerHeaders {
    ProducerHeaders { id: id.to_string(), epoch, seq }
}

#[test]
fn file_stream_producer_admission() {
    let mut fs = FileStream::new(StreamConfig::new("text/plain".to_string()), 0);
    assert!(matches!(fs.admit_producer(true, "text/plain", &producer("p", 0, 0), 0), Ok(ProducerCheck::Accept)));
    fs.record_producer(&producer("p", 0, 0), 0);
    assert!(matches!(
        fs.admit_producer(true, "text/plain", &producer("p", 0, 0), 1),
        Ok(ProducerCheck::Duplicate { epoch: 0, seq: 0 })
    ));
    assert!(matches!(
        fs.admit_producer(true, "text/plain", &producer("p", 0, 5), 1),
        Err(Error::SequenceGap { expected: 1, actual: 5 })
    ));
    assert!(matches!(
        fs.admit_producer(true, "application/json", &producer("p", 0, 1), 1),
        Err(Error::ContentTypeMismatch { .. })
    ));
    // An empty append is not checked for its content type.
    assert!(matches!(fs.admit_producer(false, "application/json", &producer("p", 0, 1), 1), Ok(ProducerCheck::Accept)));
    fs.record_producer(&producer("p", 2, 0), 1);
    assert!(matches!(
        fs.admit_producer(true, "text/plain", &producer("p", 1, 0), 1),
        Err(Error::EpochFenced { current: 2, received: 1 })
    ));
    fs.close();
    assert!(matches!(fs.admit_producer(true, "text/plain", &producer("q", 0, 0), 1), Err(Error::StreamClosed)));
    // After seven days without appends a producer is forgotten.
    let week = 7 * 24 * 3600 * 1000;
    assert!(matches!(
        fs.admit_producer(true, "text/plain", &producer("p", 0, 0), 1 + week + 1),
        Err(Error::StreamClosed)
    ));
    assert!(fs.producer_entries().is_empty());
}

#[test]
fn file_stream_expiry_and_seq() {
    let mut fs = FileStream::new(StreamConfig::new("text/plain".to_string()).with_expires_at((0, 100_000_000)), 0);
    assert!(matches!(fs.admit_producer(true, "text/plain", &producer("p", 0, 0), 100), Err(Error::StreamExpired)));
    assert!(fs.admit_append("text/plain", 99).is_ok());
    assert_eq!(fs.admit_seq(Some("b")).unwrap(), Some("b".to_string()));
    fs.accept_seq(Some("b".to_string()));
    assert_eq!(fs.last_seq(), Some("b"));
    assert!(matches!(fs.admit_seq(Some("a")), Err(Error::SeqOrderingViolation { .. })));
    assert_eq!(fs.admit_seq(None).unwrap(), None);
}

#[test]
fn file_stream_records_batches() {
    let mut fs = FileStream::new(StreamConfig::new("text/plain".to_string()), 5);
    fs.record_batch(0, &[3, 4]);
    assert_eq!(fs.total_bytes(), 7);
    assert_eq!(fs.next_offset(), Offset::new(2, 7));
    assert_eq!(fs.index().entry(1).file_pos, 11);
    assert_eq!(fs.created_at(), 5);
}

#[test]
fn producer_book_keeps_last_entry_per_id() {
    let st = |e: u64| ProducerState { epoch: e, last_seq: 0, updated_at: 0 };
    let book = ProducerBook::from_entries(vec![("a".to_string(), st(1)), ("b".to_string(), st(2)), ("a".to_string(), st(3))]);
    assert_eq!(book.get("a").map(|s| s.epoch), Some(3));
    assert_eq!(book.get("b").map(|s| s.epoch), Some(2));
    assert!(book.get("c").is_none());
    assert_eq!(book.entries().len(), 2);
    let restored = FileStream::restore(
        StreamConfig::new("text/plain".to_string()),
        true,
        9,
        Some("x".to_string()),
        book.entries(),
        LogIndex::new(),
    );
    assert!(restored.is_closed());
    assert_eq!(restored.producer_entries().len(), 2);
}

#[test]
fn file_and_memory_decide_producer_appends_alike() {
    let mut mem = InMemoryStorage::new(1 << 20, 1 << 20);
    mem.create_stream_at("s", StreamConfig::new("text/plain".to_string()), 0).unwrap();
    let mut fs = FileStream::new(StreamConfig::new("text/plain".to_string()), 0);
    let steps = [("p", 0u64, 0u64), ("p", 0, 0), ("p", 0, 2), ("p", 1, 3), ("p", 1, 0), ("p", 0, 5), ("q", 0, 1)];
    for (id, epoch, seq) in steps {
        let p = producer(id, epoch, seq);
        let file_verdict = fs.admit_producer(true, "text/plain", &p, 10);
        let mem_result = mem.append_with_producer_at("s", vec![b"x".to_vec()], "text/plain", &p, false, None, 10);
        match (file_verdict, mem_result) {
            (Ok(ProducerCheck::Accept), Ok(ProducerAppendResult::Accepted { .. })) => {
                fs.record_batch(fs.total_bytes() + 4 * fs.index().message_count(), &[1]);
                fs.record_producer(&p, 10);
            }
            (Ok(ProducerCheck::Duplicate { epoch: e1, seq: s1 }), Ok(ProducerAppendResult::Duplicate { epoch: e2, seq: s2, .. })) => {
                assert_eq!((e1, s1), (e2, s2));
            }
            (Err(a), Err(b)) => assert_eq!(a, b),
            (a, b) => panic!("back ends disagree: {a:?} vs {b:?}"),
        }
    }
}

#[test]
fn empty_batches_are_refused() {
    assert!(check_batch_nonempty(&vec![vec![]]).is_ok());
    match check_batch_nonempty(&vec![]) {
        Err(Error::InvalidHeader { header, reason }) => {
            assert_eq!(header, "Content-Length");
            assert_eq!(reason, "batch cannot be empty");
        }
        other => panic!("unexpected: {other:?}"),
    }
}
