//! In-memory stream storage.
//!
//! Streams live in slots found by name through a hash index. Each stream
//! keeps its messages in order with the byte position of each, so a read
//! from any offset finds its first message without a search. A store-wide
//! byte budget and a per-stream byte budget bound what appends may add.

use super::{
    clock_error, clock_unreadable, current_time_millis, offset_result, read_result, metadata_result, create_result,
    create_with_data_result, producer_result, unit_result,
    check_producer, content_type_accepted, messages_from, next_offset_of, offset_of,
    producer_verdict, seq_verdict, total_len, validate_content_type, validate_seq, Message,
    MetadataView, ProducerAppendResult, ProducerAppendView, ProducerCheck, ProducerHeaders,
    ProducerState, ReadResult, ReadView, StreamConfig, StreamConfigView, StreamMetadata,
    PRODUCER_STATE_TTL_MS, lemma_total_len_push, lemma_total_len_single, lemma_total_len_take, config_expired,
    config_equiv, CreateStreamResult, CreateWithDataResult, CreateWithDataView,
};
use crate::protocol::error::{Error, ErrorView};
use crate::protocol::offset::{components_of, now_text, start_text, Offset};
use super::producers::ProducerBook;
use vstd::hash_map::StringHashMap;
use vstd::prelude::*;

verus! {

/// The contents of one stream.
#[verifier::ext_equal]
pub struct StreamView {
    /// The configuration it was created with.
    pub config: StreamConfigView,
    /// Its message payloads, oldest first.
    pub payloads: Seq<Seq<u8>>,
    /// Whether it is closed to appends.
    pub closed: bool,
    /// When it was created (ms since the epoch).
    pub created_at: i64,
    /// What it remembers of each producer, by producer id.
    pub producers: Map<Seq<char>, ProducerState>,
    /// The last `Stream-Seq` it accepted.
    pub last_seq: Option<Seq<char>>,
}

/// The contents of a store: its streams by name, the bytes they hold in all,
/// and the two byte budgets.
#[verifier::ext_equal]
pub struct StoreView {
    pub streams: Map<Seq<char>, StreamView>,
    pub total_bytes: u64,
    pub max_total_bytes: u64,
    pub max_stream_bytes: u64,
}

/// The bytes a stream holds.
pub open spec fn stream_bytes(s: StreamView) -> nat {
    total_len(s.payloads)
}

/// A freshly created, empty, open stream.
pub open spec fn fresh_stream(config: StreamConfigView, now: i64) -> StreamView {
    StreamView {
        config,
        payloads: seq![],
        closed: false,
        created_at: now,
        producers: Map::empty(),
        last_seq: None,
    }
}

/// Whether a producer's state has outlived its retention at `now`.
pub open spec fn producer_stale(p: ProducerState, now: i64) -> bool {
    now - p.updated_at > PRODUCER_STATE_TTL_MS
}

/// The producer states still retained at `now`.
pub open spec fn live_producers(m: Map<Seq<char>, ProducerState>, now: i64) -> Map<
    Seq<char>,
    ProducerState,
> {
    Map::new(|k: Seq<char>| m.contains_key(k) && !producer_stale(m[k], now), |k: Seq<char>| m[k])
}

/// The entry of a map under a key, if any.
pub open spec fn map_get<V>(m: Map<Seq<char>, V>, k: Seq<char>) -> Option<V> {
    if m.contains_key(k) {
        Some(m[k])
    } else {
        None
    }
}

/// The store without the stream `name`, whose bytes are released.
pub open spec fn without_stream(st: StoreView, name: Seq<char>) -> StoreView {
    let b = stream_bytes(st.streams[name]);
    StoreView {
        streams: st.streams.remove(name),
        total_bytes: if st.total_bytes >= b {
            (st.total_bytes - b) as u64
        } else {
            0
        },
        ..st
    }
}

/// The store with stream `name` replaced by `s`, and `added` more bytes.
pub open spec fn with_stream(st: StoreView, name: Seq<char>, s: StreamView, added: nat) -> StoreView {
    StoreView { streams: st.streams.insert(name, s), total_bytes: (st.total_bytes + added) as u64, ..st }
}

/// Whether a batch of payloads fits the budgets: the store-wide budget is
/// checked first, then the stream's.
pub open spec fn commit_verdict(st: StoreView, s: StreamView, msgs: Seq<Seq<u8>>) -> Result<
    (),
    ErrorView,
> {
    if msgs.len() == 0 {
        Ok(())
    } else if st.total_bytes + total_len(msgs) > st.max_total_bytes {
        Err(ErrorView::MemoryLimitExceeded)
    } else if stream_bytes(s) + total_len(msgs) > st.max_stream_bytes {
        Err(ErrorView::StreamSizeLimitExceeded)
    } else {
        Ok(())
    }
}

/// The store as `name` finds it at `now`: an expired stream under the name
/// is dropped first.
pub open spec fn drop_if_expired(st: StoreView, name: Seq<char>, now: i64) -> StoreView {
    if st.streams.contains_key(name) && config_expired(st.streams[name].config, now) {
        without_stream(st, name)
    } else {
        st
    }
}

/// Creating a stream: an expired stream under the name is replaced; an equal
/// configuration is an idempotent success; a different one is refused.
pub open spec fn create_spec(st: StoreView, name: Seq<char>, config: StreamConfigView, now: i64) -> (
    StoreView,
    Result<CreateStreamResult, ErrorView>,
) {
    let base = drop_if_expired(st, name, now);
    if base.streams.contains_key(name) {
        if config_equiv(base.streams[name].config, config) {
            (base, Ok(CreateStreamResult::AlreadyExists))
        } else {
            (base, Err(ErrorView::ConfigMismatch))
        }
    } else {
        (with_stream(base, name, fresh_stream(config, now), 0), Ok(CreateStreamResult::Created))
    }
}

/// The refusal, if any, of an append to stream `name` at `now` before the
/// budgets are consulted.
pub open spec fn append_gate(st: StoreView, name: Seq<char>, ct: Seq<char>, now: i64) -> Option<
    ErrorView,
> {
    if !st.streams.contains_key(name) {
        Some(ErrorView::NotFound(name))
    } else if config_expired(st.streams[name].config, now) {
        Some(ErrorView::StreamExpired)
    } else if st.streams[name].closed {
        Some(ErrorView::StreamClosed)
    } else if !content_type_accepted(st.streams[name].config.content_type, ct) {
        Some(
            ErrorView::ContentTypeMismatch {
                stream: st.streams[name].config.content_type,
                request: ct,
            },
        )
    } else {
        None
    }
}

/// Appending one message: on success the result is the message's offset.
pub open spec fn append_spec(
    st: StoreView,
    name: Seq<char>,
    data: Seq<u8>,
    ct: Seq<char>,
    now: i64,
) -> (StoreView, Result<Seq<char>, ErrorView>) {
    match append_gate(st, name, ct, now) {
        Some(e) => (st, Err(e)),
        None => {
            let s = st.streams[name];
            match commit_verdict(st, s, seq![data]) {
                Err(e) => (st, Err(e)),
                Ok(_) => (
                    with_stream(
                        st,
                        name,
                        StreamView { payloads: s.payloads.push(data), ..s },
                        data.len(),
                    ),
                    Ok(next_offset_of(s.payloads)),
                ),
            }
        },
    }
}

/// The reason given for an empty batch.
pub open spec fn empty_batch_error() -> ErrorView {
    ErrorView::InvalidHeader { header: "Content-Length"@, reason: "batch cannot be empty"@ }
}

/// The `Stream-Seq` to record after an accepted append.
pub open spec fn next_last_seq(old: Option<Seq<char>>, pending: Option<Seq<char>>) -> Option<
    Seq<char>,
> {
    match pending {
        Some(v) => Some(v),
        None => old,
    }
}

/// Appending a batch atomically: all messages or none. On success the result
/// is the offset after the batch.
pub open spec fn batch_append_spec(
    st: StoreView,
    name: Seq<char>,
    msgs: Seq<Seq<u8>>,
    ct: Seq<char>,
    seq: Option<Seq<char>>,
    now: i64,
) -> (StoreView, Result<Seq<char>, ErrorView>) {
    if msgs.len() == 0 {
        (st, Err(empty_batch_error()))
    } else {
        match append_gate(st, name, ct, now) {
            Some(e) => (st, Err(e)),
            None => {
                let s = st.streams[name];
                match seq_verdict(s.last_seq, seq) {
                    Err(e) => (st, Err(e)),
                    Ok(pending) => match commit_verdict(st, s, msgs) {
                        Err(e) => (st, Err(e)),
                        Ok(_) => {
                            let s1 = StreamView {
                                payloads: s.payloads + msgs,
                                last_seq: next_last_seq(s.last_seq, pending),
                                ..s
                            };
                            (
                                with_stream(st, name, s1, total_len(msgs)),
                                Ok(next_offset_of(s1.payloads)),
                            )
                        },
                    },
                }
            },
        }
    }
}

/// Where a read from the canonical offset `(a, b)` starts: after every
/// message whose offset sorts before it.
pub open spec fn read_start(ps: Seq<Seq<u8>>, a: nat, b: nat) -> nat {
    if a >= ps.len() {
        ps.len()
    } else if total_len(ps.take(a as int)) < b {
        a + 1
    } else {
        a
    }
}

/// Where a read from offset text `from` starts: at the tail for `now`, at
/// the first message for `-1`, else by `read_start`.
pub open spec fn read_start_of(ps: Seq<Seq<u8>>, from: Seq<char>) -> nat {
    if from == now_text() {
        ps.len()
    } else if from == start_text() {
        0
    } else {
        let (a, b) = components_of(from)->0;
        read_start(ps, a as nat, b as nat)
    }
}

/// Reading a stream from an offset: everything from the first message at or
/// after it, up to the tail.
pub open spec fn read_spec(st: StoreView, name: Seq<char>, from: Seq<char>, now: i64) -> Result<
    ReadView,
    ErrorView,
> {
    if !st.streams.contains_key(name) {
        Err(ErrorView::NotFound(name))
    } else {
        let s = st.streams[name];
        if config_expired(s.config, now) {
            Err(ErrorView::StreamExpired)
        } else {
            Ok(
                ReadView {
                    messages: messages_from(s.payloads, read_start_of(s.payloads, from) as int),
                    next_offset: next_offset_of(s.payloads),
                    at_tail: true,
                    closed: s.closed,
                },
            )
        }
    }
}

/// Deleting a stream releases its bytes.
pub open spec fn delete_spec(st: StoreView, name: Seq<char>) -> (StoreView, Result<(), ErrorView>) {
    if !st.streams.contains_key(name) {
        (st, Err(ErrorView::NotFound(name)))
    } else {
        (without_stream(st, name), Ok(()))
    }
}

/// A stream's metadata.
pub open spec fn head_spec(st: StoreView, name: Seq<char>, now: i64) -> Result<
    MetadataView,
    ErrorView,
> {
    if !st.streams.contains_key(name) {
        Err(ErrorView::NotFound(name))
    } else {
        let s = st.streams[name];
        if config_expired(s.config, now) {
            Err(ErrorView::StreamExpired)
        } else {
            Ok(
                MetadataView {
                    config: s.config,
                    next_offset: next_offset_of(s.payloads),
                    closed: s.closed,
                    total_bytes: stream_bytes(s) as u64,
                    message_count: s.payloads.len() as u64,
                    created_at: s.created_at,
                },
            )
        }
    }
}

/// Closing a stream (idempotent).
pub open spec fn close_spec(st: StoreView, name: Seq<char>, now: i64) -> (
    StoreView,
    Result<(), ErrorView>,
) {
    if !st.streams.contains_key(name) {
        (st, Err(ErrorView::NotFound(name)))
    } else if config_expired(st.streams[name].config, now) {
        (st, Err(ErrorView::StreamExpired))
    } else {
        (with_stream(st, name, StreamView { closed: true, ..st.streams[name] }, 0), Ok(()))
    }
}

/// Whether a stream is present and unexpired.
pub open spec fn exists_spec(st: StoreView, name: Seq<char>, now: i64) -> bool {
    st.streams.contains_key(name) && !config_expired(st.streams[name].config, now)
}

/// The effect of a producer append on one stream `s0` (whose stale producer
/// states are already dropped) in store `st0`: the stream after it, the bytes
/// it added, and the answer. Content type, the producer verdict, the stream
/// sequence and the budgets are checked in that order. A duplicate is answered
/// with the stream as it stands; an accepted append records the producer and
/// may close the stream.
pub open spec fn producer_stream_step(
    st0: StoreView,
    s0: StreamView,
    msgs: Seq<Seq<u8>>,
    ct: Seq<char>,
    id: Seq<char>,
    epoch: u64,
    seq_no: u64,
    should_close: bool,
    seq: Option<Seq<char>>,
    now: i64,
) -> (StreamView, nat, Result<ProducerAppendView, ErrorView>) {
    if msgs.len() > 0 && !content_type_accepted(s0.config.content_type, ct) {
        (
            s0,
            0,
            Err(ErrorView::ContentTypeMismatch { stream: s0.config.content_type, request: ct }),
        )
    } else {
        match producer_verdict(map_get(s0.producers, id), epoch, seq_no, s0.closed) {
            Err(e) => (s0, 0, Err(e)),
            Ok(ProducerCheck::Duplicate { epoch: e2, seq: q2 }) => (
                s0,
                0,
                Ok(
                    ProducerAppendView::Duplicate {
                        epoch: e2,
                        seq: q2,
                        next_offset: next_offset_of(s0.payloads),
                        closed: s0.closed,
                    },
                ),
            ),
            Ok(ProducerCheck::Accept) => match seq_verdict(s0.last_seq, seq) {
                Err(e) => (s0, 0, Err(e)),
                Ok(pending) => match commit_verdict(st0, s0, msgs) {
                    Err(e) => (s0, 0, Err(e)),
                    Ok(_) => {
                        let s1 = StreamView {
                            payloads: s0.payloads + msgs,
                            last_seq: next_last_seq(s0.last_seq, pending),
                            closed: s0.closed || should_close,
                            producers: s0.producers.insert(
                                id,
                                ProducerState { epoch, last_seq: seq_no, updated_at: now },
                            ),
                            ..s0
                        };
                        (
                            s1,
                            total_len(msgs),
                            Ok(
                                ProducerAppendView::Accepted {
                                    epoch,
                                    seq: seq_no,
                                    next_offset: next_offset_of(s1.payloads),
                                    closed: s1.closed,
                                },
                            ),
                        )
                    },
                },
            },
        }
    }
}

/// Appending with producer sequencing: stale producer states of the stream
/// are dropped first (and stay dropped whatever the answer), then
/// `producer_stream_step` decides.
pub open spec fn producer_append_spec(
    st: StoreView,
    name: Seq<char>,
    msgs: Seq<Seq<u8>>,
    ct: Seq<char>,
    id: Seq<char>,
    epoch: u64,
    seq_no: u64,
    should_close: bool,
    seq: Option<Seq<char>>,
    now: i64,
) -> (StoreView, Result<ProducerAppendView, ErrorView>) {
    if !st.streams.contains_key(name) {
        (st, Err(ErrorView::NotFound(name)))
    } else if config_expired(st.streams[name].config, now) {
        (st, Err(ErrorView::StreamExpired))
    } else {
        let s0 = StreamView {
            producers: live_producers(st.streams[name].producers, now),
            ..st.streams[name]
        };
        let st0 = with_stream(st, name, s0, 0);
        let (s1, added, r) = producer_stream_step(
            st0,
            s0,
            msgs,
            ct,
            id,
            epoch,
            seq_no,
            should_close,
            seq,
            now,
        );
        (with_stream(st0, name, s1, added), r)
    }
}

/// Creating a stream together with its first messages and, optionally,
/// closing it, in one step. An idempotent re-create ignores the messages and
/// reports the stream as it stands; if the messages do not fit the budgets
/// the stream is not created.
pub open spec fn create_with_data_spec(
    st: StoreView,
    name: Seq<char>,
    config: StreamConfigView,
    msgs: Seq<Seq<u8>>,
    should_close: bool,
    now: i64,
) -> (StoreView, Result<CreateWithDataView, ErrorView>) {
    let base = drop_if_expired(st, name, now);
    if base.streams.contains_key(name) {
        let s = base.streams[name];
        if config_equiv(s.config, config) {
            (
                base,
                Ok(
                    CreateWithDataView {
                        status: CreateStreamResult::AlreadyExists,
                        next_offset: next_offset_of(s.payloads),
                        closed: s.closed,
                    },
                ),
            )
        } else {
            (base, Err(ErrorView::ConfigMismatch))
        }
    } else {
        let fresh = fresh_stream(config, now);
        match commit_verdict(base, fresh, msgs) {
            Err(e) => (base, Err(e)),
            Ok(_) => {
                let s1 = StreamView { payloads: msgs, closed: should_close, ..fresh };
                (
                    with_stream(base, name, s1, total_len(msgs)),
                    Ok(
                        CreateWithDataView {
                            status: CreateStreamResult::Created,
                            next_offset: next_offset_of(msgs),
                            closed: should_close,
                        },
                    ),
                )
            },
        }
    }
}

/// One stream.
struct StreamEntry {
    name: String,
    config: StreamConfig,
    messages: Vec<Message>,
    /// The byte position of each message within the stream.
    positions: Vec<u64>,
    closed: bool,
    next_read_seq: u64,
    next_byte_offset: u64,
    total_bytes: u64,
    created_at: i64,
    producers: ProducerBook,
    last_seq: Option<String>,
}

/// The payloads of a message list.
spec fn payloads_of(ms: Seq<Message>) -> Seq<Seq<u8>> {
    ms.map_values(|m: Message| m.data@)
}

/// The payloads of a batch.
pub open spec fn batch_payloads(v: Seq<Vec<u8>>) -> Seq<Seq<u8>> {
    v.map_values(|d: Vec<u8>| d@)
}

/// The characters of an optional string.
pub open spec fn opt_string(s: Option<String>) -> Option<Seq<char>> {
    match s {
        Some(t) => Some(t@),
        None => None,
    }
}

impl StreamEntry {
    spec fn wf(&self, max_stream: u64) -> bool {
        let ps = payloads_of(self.messages@);
        &&& self.positions@.len() == self.messages@.len()
        &&& self.next_read_seq == self.messages@.len()
        &&& forall|i: int|
            0 <= i < self.messages@.len() ==> #[trigger] self.positions@[i] == total_len(
                ps.take(i),
            )
        &&& forall|i: int|
            0 <= i < self.messages@.len() ==> (#[trigger] self.messages@[i]).offset@ == offset_of(
                ps,
                i,
            ) && self.messages@[i].byte_len == self.messages@[i].data@.len()
        &&& self.next_byte_offset == total_len(ps)
        &&& self.total_bytes == total_len(ps)
        &&& total_len(ps) <= max_stream
        &&& self.producers.wf()
    }

    spec fn sview(&self) -> StreamView {
        StreamView {
            config: self.config@,
            payloads: payloads_of(self.messages@),
            closed: self.closed,
            created_at: self.created_at,
            producers: self.producers@,
            last_seq: opt_string(self.last_seq),
        }
    }

    fn fresh(name: String, config: StreamConfig, now: i64, Ghost(max_stream): Ghost<u64>) -> (e:
        StreamEntry)
        ensures
            e.wf(max_stream),
            e.sview() == fresh_stream(config@, now),
            e.name@ == name@,
    {
        let e = StreamEntry {
            name,
            config,
            messages: Vec::new(),
            positions: Vec::new(),
            closed: false,
            next_read_seq: 0,
            next_byte_offset: 0,
            total_bytes: 0,
            created_at: now,
            producers: ProducerBook::new(),
            last_seq: None,
        };
        assert(payloads_of(e.messages@) =~= seq![]);
        e
    }

    /// The offset the next message will get.
    fn next_offset(&self, Ghost(max_stream): Ghost<u64>) -> (o: Offset)
        requires
            self.wf(max_stream),
        ensures
            o@ == next_offset_of(self.sview().payloads),
    {
        Offset::new(self.next_read_seq, self.next_byte_offset)
    }

    /// Appends one message.
    fn push_message(&mut self, data: Vec<u8>, Ghost(max_stream): Ghost<u64>)
        requires
            old(self).wf(max_stream),
            old(self).total_bytes + data@.len() <= max_stream,
        ensures
            final(self).wf(max_stream),
            final(self).sview() == (StreamView {
                payloads: old(self).sview().payloads.push(data@),
                ..old(self).sview()
            }),
            final(self).name == old(self).name,
            final(self).total_bytes == old(self).total_bytes + data@.len(),
    {
        let ghost ps = payloads_of(self.messages@);
        let ghost d = data@;
        let len = data.len() as u64;
        let offset = Offset::new(self.messages.len() as u64, self.next_byte_offset);
        self.positions.push(self.next_byte_offset);
        self.messages.push(Message::new(offset, data));
        self.next_read_seq = self.messages.len() as u64;
        self.next_byte_offset = self.next_byte_offset + len;
        self.total_bytes = self.total_bytes + len;
        proof {
            let ps2 = payloads_of(self.messages@);
            assert(ps2 =~= ps.push(d));
            lemma_total_len_push(ps, d);
            assert forall|i: int| 0 <= i < self.messages@.len() implies #[trigger] self.positions@[i]
                == total_len(ps2.take(i)) by {
                if i < ps.len() {
                    assert(ps2.take(i) =~= ps.take(i));
                } else {
                    assert(ps2.take(i) =~= ps);
                }
            }
            assert forall|i: int| 0 <= i < self.messages@.len() implies (
            #[trigger] self.messages@[i]).offset@ == offset_of(ps2, i) by {
                if i < ps.len() {
                    assert(ps2.take(i) =~= ps.take(i));
                } else {
                    assert(ps2.take(i) =~= ps);
                }
            }
        }
    }

    /// Appends a batch of messages in order.
    fn commit(&mut self, msgs: Vec<Vec<u8>>, Ghost(max_stream): Ghost<u64>)
        requires
            old(self).wf(max_stream),
            old(self).total_bytes + total_len(batch_payloads(msgs@)) <= max_stream,
        ensures
            final(self).wf(max_stream),
            final(self).sview() == (StreamView {
                payloads: old(self).sview().payloads + batch_payloads(msgs@),
                ..old(self).sview()
            }),
            final(self).name == old(self).name,
            final(self).total_bytes == old(self).total_bytes + total_len(batch_payloads(msgs@)),
    {
        let ghost all = batch_payloads(msgs@);
        let ghost start = self.sview();
        let ghost start_total = self.total_bytes;
        for d in it: msgs
            invariant
                self.wf(max_stream),
                all == batch_payloads(it.seq()),
                self.sview() == (StreamView {
                    payloads: start.payloads + all.take(it.index() as int),
                    ..start
                }),
                self.total_bytes == start_total + total_len(all.take(it.index() as int)),
                start_total + total_len(all) <= max_stream,
                self.name == old(self).name,
        {
            let ghost k = it.index() as int;
            proof {
                assert(all.take(k + 1) =~= all.take(k).push(d@));
                lemma_total_len_push(all.take(k), d@);
                lemma_total_len_take(all, k + 1);
            }
            self.push_message(d, Ghost(max_stream));
            assert(start.payloads + all.take(k + 1) =~= (start.payloads + all.take(k)).push(d@));
        }
        assert(all.take(all.len() as int) =~= all);
    }

    /// Drops the producer states that have outlived their retention.
    fn drop_stale_producers(&mut self, now: i64, Ghost(max_stream): Ghost<u64>)
        requires
            old(self).wf(max_stream),
        ensures
            final(self).wf(max_stream),
            final(self).sview() == (StreamView {
                producers: live_producers(old(self).sview().producers, now),
                ..old(self).sview()
            }),
            final(self).name == old(self).name,
    {
        self.producers.drop_stale(now);
    }

    /// Records producer `id` with state `st`.
    fn set_producer(&mut self, id: String, st: ProducerState, Ghost(max_stream): Ghost<u64>)
        requires
            old(self).wf(max_stream),
        ensures
            final(self).wf(max_stream),
            final(self).sview() == (StreamView {
                producers: old(self).sview().producers.insert(id@, st),
                ..old(self).sview()
            }),
            final(self).name == old(self).name,
    {
        self.producers.set(id, st);
    }
}

/// The bytes held in a slot.
spec fn slot_bytes(o: Option<StreamEntry>) -> nat {
    match o {
        Some(e) => e.total_bytes as nat,
        None => 0,
    }
}

/// The bytes held in all slots.
spec fn slots_total(s: Seq<Option<StreamEntry>>) -> nat
    decreases s.len(),
{
    if s.len() == 0 {
        0
    } else {
        slots_total(s.drop_last()) + slot_bytes(s.last())
    }
}

proof fn lemma_slots_total_update(s: Seq<Option<StreamEntry>>, i: int, x: Option<StreamEntry>)
    requires
        0 <= i < s.len(),
    ensures
        slots_total(s.update(i, x)) + slot_bytes(s[i]) == slots_total(s) + slot_bytes(x),
        slot_bytes(s[i]) <= slots_total(s),
    decreases s.len(),
{
    let t = s.update(i, x);
    if i == s.len() - 1 {
        assert(t.drop_last() =~= s.drop_last());
    } else {
        assert(t.drop_last() =~= s.drop_last().update(i, x));
        lemma_slots_total_update(s.drop_last(), i, x);
    }
}

proof fn lemma_slots_total_push(s: Seq<Option<StreamEntry>>, x: Option<StreamEntry>)
    ensures
        slots_total(s.push(x)) == slots_total(s) + slot_bytes(x),
{
    assert(s.push(x).drop_last() =~= s);
}


/// The total length of a batch, or `None` when it does not fit in a `u64`.
pub fn batch_len(msgs: &Vec<Vec<u8>>) -> (r: Option<u64>)
    ensures
        match r {
            Some(n) => n == total_len(batch_payloads(msgs@)),
            None => total_len(batch_payloads(msgs@)) > u64::MAX,
        },
{
    let ghost ps = batch_payloads(msgs@);
    let mut sum: u64 = 0;
    let mut i: usize = 0;
    while i < msgs.len()
        invariant
            i <= msgs@.len(),
            ps == batch_payloads(msgs@),
            sum == total_len(ps.take(i as int)),
        decreases msgs.len() - i,
    {
        proof {
            assert(ps.take(i + 1) =~= ps.take(i as int).push(ps[i as int]));
            lemma_total_len_push(ps.take(i as int), ps[i as int]);
        }
        let len = msgs[i].len() as u64;
        match sum.checked_add(len) {
            Some(t) => {
                sum = t;
            },
            None => {
                proof {
                    lemma_total_len_take(ps, i + 1);
                }
                return None;
            },
        }
        i = i + 1;
    }
    assert(ps.take(i as int) =~= ps);
    Some(sum)
}

/// In-memory storage of streams, with a store-wide and a per-stream byte
/// budget.
pub struct InMemoryStorage {
    index: StringHashMap<usize>,
    slots: Vec<Option<StreamEntry>>,
    free: Vec<usize>,
    total_bytes: u64,
    max_total_bytes: u64,
    max_stream_bytes: u64,
}

impl View for InMemoryStorage {
    type V = StoreView;

    closed spec fn view(&self) -> StoreView {
        StoreView {
            streams: Map::new(
                |k: Seq<char>| self.index@.contains_key(k),
                |k: Seq<char>| self.slots@[self.index@[k] as int]->0.sview(),
            ),
            total_bytes: self.total_bytes,
            max_total_bytes: self.max_total_bytes,
            max_stream_bytes: self.max_stream_bytes,
        }
    }
}

impl InMemoryStorage {
    /// The store's internal consistency: the index and the slots agree, free
    /// slots are empty and listed once, each stream is consistent, and the
    /// store-wide byte count is the sum of the streams' byte counts.
    pub closed spec fn wf(&self) -> bool {
        &&& forall|k: Seq<char>|
            #[trigger] self.index@.contains_key(k) ==> {
                &&& self.index@[k] < self.slots@.len()
                &&& self.slots@[self.index@[k] as int] is Some
                &&& self.slots@[self.index@[k] as int]->0.name@ == k
            }
        &&& forall|i: int|
            0 <= i < self.slots@.len() && (#[trigger] self.slots@[i]) is Some ==> {
                &&& self.index@.contains_key(self.slots@[i]->0.name@)
                &&& self.index@[self.slots@[i]->0.name@] == i
                &&& self.slots@[i]->0.wf(self.max_stream_bytes)
            }
        &&& forall|j: int|
            0 <= j < self.free@.len() ==> #[trigger] self.free@[j] < self.slots@.len()
                && self.slots@[self.free@[j] as int] is None
        &&& forall|a: int, b: int|
            0 <= a < self.free@.len() && 0 <= b < self.free@.len() && a != b ==> #[trigger] self.free@[a]
                != #[trigger] self.free@[b]
        &&& self.total_bytes == slots_total(self.slots@)
        &&& self.total_bytes <= self.max_total_bytes
    }

    /// A store replacing slot `i` (the stream `name`) of a consistent store
    /// with a consistent entry of the same name, and counting its bytes, is
    /// consistent and sees that stream replaced.
    proof fn lemma_replace(a: InMemoryStorage, b: InMemoryStorage, i: int, e: StreamEntry)
        requires
            a.wf(),
            0 <= i < a.slots@.len(),
            a.slots@[i] is Some,
            e.name@ == a.slots@[i]->0.name@,
            e.wf(a.max_stream_bytes),
            b.index@ == a.index@,
            b.free@ == a.free@,
            b.slots@ == a.slots@.update(i, Some(e)),
            b.max_total_bytes == a.max_total_bytes,
            b.max_stream_bytes == a.max_stream_bytes,
            b.total_bytes + a.slots@[i]->0.total_bytes == a.total_bytes + e.total_bytes,
            b.total_bytes <= b.max_total_bytes,
        ensures
            b.wf(),
            b@.streams == a@.streams.insert(e.name@, e.sview()),
            a@.streams.contains_key(e.name@),
            a@.streams[e.name@] == a.slots@[i]->0.sview(),
    {
        let name = e.name@;
        lemma_slots_total_update(a.slots@, i, Some(e));
        assert forall|k: Seq<char>| #[trigger] b.index@.contains_key(k) implies {
            &&& b.index@[k] < b.slots@.len()
            &&& b.slots@[b.index@[k] as int] is Some
            &&& b.slots@[b.index@[k] as int]->0.name@ == k
        } by {
            assert(a.index@.contains_key(k));
        }
        assert forall|j: int| 0 <= j < b.slots@.len() && (#[trigger] b.slots@[j]) is Some implies {
            &&& b.index@.contains_key(b.slots@[j]->0.name@)
            &&& b.index@[b.slots@[j]->0.name@] == j
            &&& b.slots@[j]->0.wf(b.max_stream_bytes)
        } by {
            if j != i {
                assert(a.slots@[j] is Some);
            } else {
                assert(a.slots@[i] is Some);
            }
        }
        assert forall|j: int| 0 <= j < b.free@.len() implies #[trigger] b.free@[j] < b.slots@.len()
            && b.slots@[b.free@[j] as int] is None by {
            assert(a.free@[j] < a.slots@.len() && a.slots@[a.free@[j] as int] is None);
        }
        assert(a.index@.contains_key(name) && a.index@[name] == i) by {
            assert(a.slots@[i] is Some);
        }
        assert forall|k: Seq<char>| #[trigger] b@.streams.contains_key(k) implies b@.streams[k]
            == a@.streams.insert(name, e.sview())[k] by {
            if k != name {
                assert(a.index@.contains_key(k));
                let j = a.index@[k] as int;
                if j == i {
                    assert(a.slots@[i]->0.name@ == k);
                }
            }
        }
        assert(b@.streams =~= a@.streams.insert(name, e.sview()));
    }

    /// A store never holds more than its budgets: in all, at most the
    /// store-wide budget; in any one stream, at most the per-stream budget.
    pub proof fn lemma_within_budgets(s: InMemoryStorage)
        requires
            s.wf(),
        ensures
            s@.total_bytes <= s@.max_total_bytes,
            forall|k: Seq<char>|
                #[trigger] s@.streams.contains_key(k) ==> stream_bytes(s@.streams[k])
                    <= s@.max_stream_bytes,
    {
        assert forall|k: Seq<char>| #[trigger] s@.streams.contains_key(k) implies stream_bytes(
            s@.streams[k],
        ) <= s@.max_stream_bytes by {
            assert(s.slots@[s.index@[k] as int] is Some);
        }
    }

    /// A fresh, empty store with the given budgets.
    pub fn new(max_total_bytes: u64, max_stream_bytes: u64) -> (s: InMemoryStorage)
        ensures
            s.wf(),
            s@ == (StoreView {
                streams: Map::empty(),
                total_bytes: 0,
                max_total_bytes,
                max_stream_bytes,
            }),
    {
        let s = InMemoryStorage {
            index: StringHashMap::new(),
            slots: Vec::new(),
            free: Vec::new(),
            total_bytes: 0,
            max_total_bytes,
            max_stream_bytes,
        };
        assert(s@.streams =~= Map::empty());
        s
    }

    /// The bytes held by all streams together.
    pub fn total_bytes(&self) -> (r: u64)
        ensures
            r == self@.total_bytes,
    {
        self.total_bytes
    }

    /// The slot of stream `name`, if present.
    fn locate(&self, name: &str) -> (r: Option<usize>)
        requires
            self.wf(),
        ensures
            match r {
                Some(i) => {
                    &&& self@.streams.contains_key(name@)
                    &&& self.index@[name@] == i
                    &&& i < self.slots@.len()
                    &&& self.slots@[i as int] is Some
                    &&& self.slots@[i as int]->0.name@ == name@
                    &&& self@.streams[name@] == self.slots@[i as int]->0.sview()
                    &&& self.slots@[i as int]->0.wf(self.max_stream_bytes)
                    &&& self.slots@[i as int]->0.total_bytes <= self.total_bytes
                },
                None => !self@.streams.contains_key(name@),
            },
    {
        match self.index.get(name) {
            Some(i) => {
                let i = *i;
                proof {
                    assert(self.index@.contains_key(name@));
                    lemma_slots_total_update(self.slots@, i as int, None);
                }
                Some(i)
            },
            None => None,
        }
    }

    /// The stream in slot `i`.
    fn entry(&self, i: usize) -> (e: &StreamEntry)
        requires
            i < self.slots@.len(),
            self.slots@[i as int] is Some,
        ensures
            *e == self.slots@[i as int]->0,
    {
        match &self.slots[i] {
            Some(e) => e,
            None => unreached(),
        }
    }

    /// Takes the stream out of slot `i`, leaving it empty.
    fn take_entry(&mut self, i: usize) -> (e: StreamEntry)
        requires
            i < old(self).slots@.len(),
            old(self).slots@[i as int] is Some,
        ensures
            e == old(self).slots@[i as int]->0,
            final(self).slots@ == old(self).slots@.update(i as int, None),
            final(self).index@ == old(self).index@,
            final(self).free@ == old(self).free@,
            final(self).total_bytes == old(self).total_bytes,
            final(self).max_total_bytes == old(self).max_total_bytes,
            final(self).max_stream_bytes == old(self).max_stream_bytes,
    {
        let mut tmp: Option<StreamEntry> = None;
        self.slots.set_and_swap(i, &mut tmp);
        match tmp {
            Some(e) => e,
            None => unreached(),
        }
    }

    /// Puts a stream back into slot `i` and adjusts the store-wide count by
    /// the bytes it gained.
    fn put_entry(
        &mut self,
        i: usize,
        e: StreamEntry,
        prev_bytes: u64,
        Ghost(before): Ghost<InMemoryStorage>,
    )
        requires
            before.wf(),
            i < before.slots@.len(),
            before.slots@[i as int] is Some,
            prev_bytes == before.slots@[i as int]->0.total_bytes,
            e.name@ == before.slots@[i as int]->0.name@,
            e.wf(before.max_stream_bytes),
            e.total_bytes >= prev_bytes,
            before.total_bytes + e.total_bytes - prev_bytes <= before.max_total_bytes,
            old(self).slots@ == before.slots@.update(i as int, None),
            old(self).index@ == before.index@,
            old(self).free@ == before.free@,
            old(self).total_bytes == before.total_bytes,
            old(self).max_total_bytes == before.max_total_bytes,
            old(self).max_stream_bytes == before.max_stream_bytes,
        ensures
            final(self).wf(),
            final(self)@ == with_stream(
                before@,
                e.name@,
                e.sview(),
                (e.total_bytes - prev_bytes) as nat,
            ),
    {
        let ghost name = e.name@;
        let ghost sv = e.sview();
        let ghost ebytes = e.total_bytes;
        proof {
            lemma_slots_total_update(before.slots@, i as int, None);
        }
        self.total_bytes = self.total_bytes - prev_bytes + e.total_bytes;
        self.slots.set(i, Some(e));
        proof {
            assert(self.slots@ == before.slots@.update(i as int, Some(self.slots@[i as int]->0)));
            InMemoryStorage::lemma_replace(before, *self, i as int, self.slots@[i as int]->0);
            assert(self@ =~= with_stream(before@, name, sv, (ebytes - prev_bytes) as nat));
        }
    }

    /// Drops stream `name`, held in slot `i`, and releases its bytes.
    fn remove_stream(&mut self, name: &str, i: usize)
        requires
            old(self).wf(),
            old(self)@.streams.contains_key(name@),
            old(self).index@[name@] == i,
            i < old(self).slots@.len(),
            old(self).slots@[i as int] is Some,
        ensures
            final(self).wf(),
            final(self)@ == without_stream(old(self)@, name@),
    {
        let ghost before = *self;
        let e = self.take_entry(i);
        proof {
            lemma_slots_total_update(before.slots@, i as int, None);
            assert(before.slots@[i as int]->0.wf(before.max_stream_bytes));
        }
        let bytes = e.total_bytes;
        self.index.remove(name);
        self.free.push(i);
        self.total_bytes = self.total_bytes - bytes;
        proof {
            let b = *self;
            assert forall|k: Seq<char>| #[trigger] b.index@.contains_key(k) implies {
                &&& b.index@[k] < b.slots@.len()
                &&& b.slots@[b.index@[k] as int] is Some
                &&& b.slots@[b.index@[k] as int]->0.name@ == k
            } by {
                assert(before.index@.contains_key(k));
                if before.index@[k] == i {
                    assert(before.slots@[i as int]->0.name@ == k);
                }
            }
            assert forall|j: int| 0 <= j < b.slots@.len() && (#[trigger] b.slots@[j]) is Some implies {
                &&& b.index@.contains_key(b.slots@[j]->0.name@)
                &&& b.index@[b.slots@[j]->0.name@] == j
                &&& b.slots@[j]->0.wf(b.max_stream_bytes)
            } by {
                assert(before.slots@[j] is Some);
                assert(j != i);
                if b.slots@[j]->0.name@ == name@ {
                    assert(before.index@[name@] == j);
                }
            }
            assert forall|j: int| 0 <= j < b.free@.len() implies #[trigger] b.free@[j] < b.slots@.len()
                && b.slots@[b.free@[j] as int] is None by {
                if j < before.free@.len() {
                    assert(b.free@[j] == before.free@[j]);
                    assert(before.free@[j] < before.slots@.len() && before.slots@[before.free@[j] as int] is None);
                }
            }
            assert forall|x: int, y: int|
                0 <= x < b.free@.len() && 0 <= y < b.free@.len() && x != y implies #[trigger] b.free@[x]
                != #[trigger] b.free@[y] by {
                if x < before.free@.len() {
                    assert(before.free@[x] < before.slots@.len() && before.slots@[before.free@[x] as int] is None);
                }
                if y < before.free@.len() {
                    assert(before.free@[y] < before.slots@.len() && before.slots@[before.free@[y] as int] is None);
                }
            }
            assert forall|k: Seq<char>| #[trigger] b@.streams.contains_key(k) implies b@.streams[k]
                == without_stream(before@, name@).streams[k] by {
                assert(before.index@.contains_key(k));
            }
            assert(b@.streams =~= without_stream(before@, name@).streams);
        }
    }

    /// Adds a stream under a name not yet in use, counting its bytes.
    fn insert_entry(&mut self, e: StreamEntry)
        requires
            old(self).wf(),
            !old(self)@.streams.contains_key(e.name@),
            e.wf(old(self).max_stream_bytes),
            old(self).total_bytes + e.total_bytes <= old(self).max_total_bytes,
        ensures
            final(self).wf(),
            final(self)@ == with_stream(old(self)@, e.name@, e.sview(), e.total_bytes as nat),
    {
        let ghost before = *self;
        let ghost name = e.name@;
        let ghost sv = e.sview();
        let ghost eb = e.total_bytes;
        let key = e.name.clone();
        self.total_bytes = self.total_bytes + e.total_bytes;
        let i: usize = match self.free.pop() {
            Some(i) => {
                proof {
                    let n = before.free@.len() - 1;
                    assert(before.free@[n] == i);
                    assert(i < before.slots@.len() && before.slots@[i as int] is None);
                    lemma_slots_total_update(before.slots@, i as int, Some(e));
                }
                self.slots.set(i, Some(e));
                i
            },
            None => {
                proof {
                    lemma_slots_total_push(before.slots@, Some(e));
                }
                let i = self.slots.len();
                self.slots.push(Some(e));
                i
            },
        };
        self.index.insert(key, i);
        proof {
            let b = *self;
            assert(b.slots@[i as int] is Some && b.slots@[i as int]->0.name@ == name);
            assert forall|k: Seq<char>| #[trigger] b.index@.contains_key(k) implies {
                &&& b.index@[k] < b.slots@.len()
                &&& b.slots@[b.index@[k] as int] is Some
                &&& b.slots@[b.index@[k] as int]->0.name@ == k
            } by {
                if k != name {
                    assert(before.index@.contains_key(k));
                    let j = before.index@[k] as int;
                    assert(j != i);
                }
            }
            assert forall|j: int| 0 <= j < b.slots@.len() && (#[trigger] b.slots@[j]) is Some implies {
                &&& b.index@.contains_key(b.slots@[j]->0.name@)
                &&& b.index@[b.slots@[j]->0.name@] == j
                &&& b.slots@[j]->0.wf(b.max_stream_bytes)
            } by {
                if j != i {
                    assert(before.slots@[j] is Some);
                    assert(before.slots@[j]->0.name@ != name);
                }
            }
            assert forall|j: int| 0 <= j < b.free@.len() implies #[trigger] b.free@[j] < b.slots@.len()
                && b.slots@[b.free@[j] as int] is None by {
                assert(b.free@[j] == before.free@[j]);
                assert(before.free@[j] < before.slots@.len() && before.slots@[before.free@[j] as int] is None);
                if before.free@.len() > b.free@.len() {
                    let n = before.free@.len() - 1;
                    assert(before.free@[n] != before.free@[j]);
                }
            }
            assert forall|x: int, y: int|
                0 <= x < b.free@.len() && 0 <= y < b.free@.len() && x != y implies #[trigger] b.free@[x]
                != #[trigger] b.free@[y] by {
                assert(b.free@[x] == before.free@[x] && b.free@[y] == before.free@[y]);
            }
            assert forall|k: Seq<char>| #[trigger] b@.streams.contains_key(k) implies b@.streams[k]
                == with_stream(before@, name, sv, eb as nat).streams[k] by {
                if k != name {
                    assert(before.index@.contains_key(k));
                }
            }
            assert(b@.streams =~= with_stream(before@, name, sv, eb as nat).streams);
        }
    }

    /// Creates a stream at time `now`. An expired stream under the name is
    /// replaced; an equal configuration is an idempotent success.
    pub fn create_stream_at(&mut self, name: &str, config: StreamConfig, now: i64) -> (r: Result<
        CreateStreamResult,
        Error,
    >)
        requires
            old(self).wf(),
        ensures
            final(self).wf(),
            (final(self)@, create_result(r)) == create_spec(old(self)@, name@, config@, now),
    {
        let ghost st = self@;
        if let Some(i) = self.locate(name) {
            if self.entry(i).config.is_expired_at(now) {
                self.remove_stream(name, i);
            } else if self.entry(i).config == config {
                return Ok(CreateStreamResult::AlreadyExists);
            } else {
                return Err(Error::ConfigMismatch);
            }
        }
        let ghost base = self@;
        assert(base == drop_if_expired(st, name@, now));
        let e = StreamEntry::fresh(String::from_str(name), config, now, Ghost(self.max_stream_bytes));
        self.insert_entry(e);
        Ok(CreateStreamResult::Created)
    }

    /// Creates a stream at the current time.
    /// Fails with a storage error, changing nothing, when the system clock
    /// reads before the Unix epoch.
    pub fn create_stream(&mut self, name: &str, config: StreamConfig) -> (r: Result<
        CreateStreamResult,
        Error,
    >)
        requires
            old(self).wf(),
        ensures
            final(self).wf(),
            (final(self)@ == old(self)@ && (r matches Err(e) && e@ == clock_unreadable())) || exists|now: i64|
                (final(self)@, create_result(r)) == create_spec(old(self)@, name@, config@, now),
    {
        let now = match current_time_millis() {
            Some(t) => t,
            None => {
                return Err(clock_error());
            },
        };
        self.create_stream_at(name, config, now)
    }

    /// The refusal, if any, of an append to the stream in slot `i`.
    fn gate(&self, i: usize, content_type: &str, now: i64, Ghost(name): Ghost<Seq<char>>) -> (r:
        Result<(), Error>)
        requires
            self.wf(),
            self@.streams.contains_key(name),
            i < self.slots@.len(),
            self.slots@[i as int] is Some,
            self@.streams[name] == self.slots@[i as int]->0.sview(),
        ensures
            unit_result(r) == match append_gate(self@, name, content_type@, now) {
                Some(e) => Err::<(), ErrorView>(e),
                None => Ok::<(), ErrorView>(()),
            },
    {
        let e = self.entry(i);
        if e.config.is_expired_at(now) {
            return Err(Error::StreamExpired);
        }
        if e.closed {
            return Err(Error::StreamClosed);
        }
        validate_content_type(e.config.content_type.as_str(), content_type)
    }

    /// Appends one message at time `now`; returns the message's offset.
    pub fn append_at(&mut self, name: &str, data: Vec<u8>, content_type: &str, now: i64) -> (r:
        Result<Offset, Error>)
        requires
            old(self).wf(),
        ensures
            final(self).wf(),
            (final(self)@, offset_result(r)) == append_spec(
                old(self)@,
                name@,
                data@,
                content_type@,
                now,
            ),
    {
        let ghost st = self@;
        let i = match self.locate(name) {
            Some(i) => i,
            None => {
                return Err(Error::NotFound(String::from_str(name)));
            },
        };
        match self.gate(i, content_type, now, Ghost(name@)) {
            Ok(()) => {},
            Err(e) => {
                return Err(e);
            },
        }
        let ghost d = data@;
        proof {
            lemma_total_len_single(d);
        }
        let len = data.len() as u64;
        match self.total_bytes.checked_add(len) {
            Some(t) => {
                if t > self.max_total_bytes {
                    return Err(Error::MemoryLimitExceeded);
                }
            },
            None => {
                return Err(Error::MemoryLimitExceeded);
            },
        }
        let prev = self.entry(i).total_bytes;
        if prev + len > self.max_stream_bytes {
            return Err(Error::StreamSizeLimitExceeded);
        }
        let ghost before = *self;
        let offset = self.entry(i).next_offset(Ghost(self.max_stream_bytes));
        let mut e = self.take_entry(i);
        e.push_message(data, Ghost(before.max_stream_bytes));
        self.put_entry(i, e, prev, Ghost(before));
        proof {
            assert(self@ =~= append_spec(st, name@, d, content_type@, now).0);
        }
        Ok(offset)
    }

    /// Appends one message at the current time; returns the message's offset.
    /// Fails with a storage error, changing nothing, when the system clock
    /// reads before the Unix epoch.
    pub fn append(&mut self, name: &str, data: Vec<u8>, content_type: &str) -> (r: Result<
        Offset,
        Error,
    >)
        requires
            old(self).wf(),
        ensures
            final(self).wf(),
            (final(self)@ == old(self)@ && (r matches Err(e) && e@ == clock_unreadable())) || exists|now: i64|
                (final(self)@, offset_result(r)) == append_spec(
                    old(self)@,
                    name@,
                    data@,
                    content_type@,
                    now,
                ),
    {
        let now = match current_time_millis() {
            Some(t) => t,
            None => {
                return Err(clock_error());
            },
        };
        self.append_at(name, data, content_type, now)
    }

    /// The stored `Stream-Seq` of the stream in slot `i`.
    fn last_seq_of(&self, i: usize) -> (r: Option<&str>)
        requires
            i < self.slots@.len(),
            self.slots@[i as int] is Some,
        ensures
            super::opt_text(r) == opt_string(self.slots@[i as int]->0.last_seq),
    {
        match &self.entry(i).last_seq {
            Some(s) => Some(s.as_str()),
            None => None,
        }
    }

    /// Appends a batch atomically at time `now`; returns the offset after it.
    #[verifier::rlimit(60)]
    pub fn batch_append_at(
        &mut self,
        name: &str,
        messages: Vec<Vec<u8>>,
        content_type: &str,
        seq: Option<&str>,
        now: i64,
    ) -> (r: Result<Offset, Error>)
        requires
            old(self).wf(),
        ensures
            final(self).wf(),
            (final(self)@, offset_result(r)) == batch_append_spec(
                old(self)@,
                name@,
                batch_payloads(messages@),
                content_type@,
                super::opt_text(seq),
                now,
            ),
    {
        let ghost st = self@;
        let ghost ps = batch_payloads(messages@);
        if messages.len() == 0 {
            return Err(
                Error::InvalidHeader {
                    header: String::from_str("Content-Length"),
                    reason: String::from_str("batch cannot be empty"),
                },
            );
        }
        let i = match self.locate(name) {
            Some(i) => i,
            None => {
                return Err(Error::NotFound(String::from_str(name)));
            },
        };
        match self.gate(i, content_type, now, Ghost(name@)) {
            Ok(()) => {},
            Err(e) => {
                return Err(e);
            },
        }
        let pending = match validate_seq(self.last_seq_of(i), seq) {
            Ok(p) => p,
            Err(e) => {
                return Err(e);
            },
        };
        let batch = match batch_len(&messages) {
            Some(b) => b,
            None => {
                return Err(Error::MemoryLimitExceeded);
            },
        };
        match self.total_bytes.checked_add(batch) {
            Some(t) => {
                if t > self.max_total_bytes {
                    return Err(Error::MemoryLimitExceeded);
                }
            },
            None => {
                return Err(Error::MemoryLimitExceeded);
            },
        }
        let prev = self.entry(i).total_bytes;
        if prev + batch > self.max_stream_bytes {
            return Err(Error::StreamSizeLimitExceeded);
        }
        let ghost before = *self;
        let mut e = self.take_entry(i);
        e.commit(messages, Ghost(before.max_stream_bytes));
        if let Some(p) = pending {
            e.last_seq = Some(p);
        }
        let offset = e.next_offset(Ghost(before.max_stream_bytes));
        self.put_entry(i, e, prev, Ghost(before));
        proof {
            assert(self@ =~= batch_append_spec(st, name@, ps, content_type@, super::opt_text(seq), now).0);
        }
        Ok(offset)
    }

    /// Appends a batch atomically at the current time.
    /// Fails with a storage error, changing nothing, when the system clock
    /// reads before the Unix epoch.
    pub fn batch_append(
        &mut self,
        name: &str,
        messages: Vec<Vec<u8>>,
        content_type: &str,
        seq: Option<&str>,
    ) -> (r: Result<Offset, Error>)
        requires
            old(self).wf(),
        ensures
            final(self).wf(),
            (final(self)@ == old(self)@ && (r matches Err(e) && e@ == clock_unreadable())) || exists|now: i64|
                (final(self)@, offset_result(r)) == batch_append_spec(
                    old(self)@,
                    name@,
                    batch_payloads(messages@),
                    content_type@,
                    super::opt_text(seq),
                    now,
                ),
    {
        let now = match current_time_millis() {
            Some(t) => t,
            None => {
                return Err(clock_error());
            },
        };
        self.batch_append_at(name, messages, content_type, seq, now)
    }

    /// Reads stream `name` from `from` at time `now`.
    #[verifier::rlimit(60)]
    pub fn read_at(&self, name: &str, from: &Offset, now: i64) -> (r: Result<ReadResult, Error>)
        requires
            self.wf(),
        ensures
            read_result(r) == read_spec(self@, name@, from@, now),
    {
        let i = match self.locate(name) {
            Some(i) => i,
            None => {
                return Err(Error::NotFound(String::from_str(name)));
            },
        };
        let e = self.entry(i);
        if e.config.is_expired_at(now) {
            return Err(Error::StreamExpired);
        }
        let ghost ps = payloads_of(e.messages@);
        let n = e.messages.len();
        let start: usize = if from.is_now() {
            n
        } else if from.is_start() {
            0
        } else {
            match from.parse_components() {
                Some((a, b)) => {
                    if a >= n as u64 {
                        n
                    } else if e.positions[a as usize] < b {
                        a as usize + 1
                    } else {
                        a as usize
                    }
                },
                None => 0,
            }
        };
        let mut messages: Vec<Message> = Vec::new();
        let mut j = start;
        while j < n
            invariant
                start <= j <= n,
                n == e.messages@.len(),
                e.wf(self.max_stream_bytes),
                ps == payloads_of(e.messages@),
                messages@.len() == j - start,
                forall|q: int|
                    0 <= q < j - start ==> (#[trigger] messages@[q])@ == messages_from(
                        ps,
                        start as int,
                    )[q],
            decreases n - j,
        {
            let m = e.messages[j].clone();
            messages.push(m);
            j = j + 1;
        }
        let result = ReadResult {
            messages,
            next_offset: e.next_offset(Ghost(self.max_stream_bytes)),
            at_tail: true,
            closed: e.closed,
        };
        proof {
            assert(result@.messages =~= messages_from(ps, start as int));
        }
        Ok(result)
    }

    /// Reads stream `name` from `from` at the current time.
    /// Fails with a storage error, changing nothing, when the system clock
    /// reads before the Unix epoch.
    pub fn read(&self, name: &str, from: &Offset) -> (r: Result<ReadResult, Error>)
        requires
            self.wf(),
        ensures
            (r matches Err(e) && e@ == clock_unreadable()) || exists|now: i64| read_result(r) == read_spec(self@, name@, from@, now),
    {
        let now = match current_time_millis() {
            Some(t) => t,
            None => {
                return Err(clock_error());
            },
        };
        self.read_at(name, from, now)
    }

    /// Deletes stream `name` and releases its bytes.
    pub fn delete(&mut self, name: &str) -> (r: Result<(), Error>)
        requires
            old(self).wf(),
        ensures
            final(self).wf(),
            (final(self)@, unit_result(r)) == delete_spec(old(self)@, name@),
    {
        match self.locate(name) {
            Some(i) => {
                self.remove_stream(name, i);
                Ok(())
            },
            None => Err(Error::NotFound(String::from_str(name))),
        }
    }

    /// The metadata of stream `name` at time `now`.
    pub fn head_at(&self, name: &str, now: i64) -> (r: Result<StreamMetadata, Error>)
        requires
            self.wf(),
        ensures
            metadata_result(r) == head_spec(self@, name@, now),
    {
        let i = match self.locate(name) {
            Some(i) => i,
            None => {
                return Err(Error::NotFound(String::from_str(name)));
            },
        };
        let e = self.entry(i);
        if e.config.is_expired_at(now) {
            return Err(Error::StreamExpired);
        }
        Ok(
            StreamMetadata {
                config: e.config.clone(),
                next_offset: e.next_offset(Ghost(self.max_stream_bytes)),
                closed: e.closed,
                total_bytes: e.total_bytes,
                message_count: e.messages.len() as u64,
                created_at: e.created_at,
            },
        )
    }

    /// The metadata of stream `name` at the current time.
    /// Fails with a storage error, changing nothing, when the system clock
    /// reads before the Unix epoch.
    pub fn head(&self, name: &str) -> (r: Result<StreamMetadata, Error>)
        requires
            self.wf(),
        ensures
            (r matches Err(e) && e@ == clock_unreadable()) || exists|now: i64| metadata_result(r) == head_spec(self@, name@, now),
    {
        let now = match current_time_millis() {
            Some(t) => t,
            None => {
                return Err(clock_error());
            },
        };
        self.head_at(name, now)
    }

    /// Closes stream `name` at time `now` (idempotent).
    pub fn close_stream_at(&mut self, name: &str, now: i64) -> (r: Result<(), Error>)
        requires
            old(self).wf(),
        ensures
            final(self).wf(),
            (final(self)@, unit_result(r)) == close_spec(old(self)@, name@, now),
    {
        let ghost st = self@;
        let i = match self.locate(name) {
            Some(i) => i,
            None => {
                return Err(Error::NotFound(String::from_str(name)));
            },
        };
        if self.entry(i).config.is_expired_at(now) {
            return Err(Error::StreamExpired);
        }
        let ghost before = *self;
        let prev = self.entry(i).total_bytes;
        let mut e = self.take_entry(i);
        assert(e.total_bytes == prev);
        e.closed = true;
        assert(e.total_bytes == prev);
        self.put_entry(i, e, prev, Ghost(before));
        proof {
            assert(self@ =~= close_spec(st, name@, now).0);
        }
        Ok(())
    }

    /// Closes stream `name` at the current time (idempotent).
    /// Fails with a storage error, changing nothing, when the system clock
    /// reads before the Unix epoch.
    pub fn close_stream(&mut self, name: &str) -> (r: Result<(), Error>)
        requires
            old(self).wf(),
        ensures
            final(self).wf(),
            (final(self)@ == old(self)@ && (r matches Err(e) && e@ == clock_unreadable())) || exists|now: i64| (final(self)@, unit_result(r)) == close_spec(old(self)@, name@, now),
    {
        let now = match current_time_millis() {
            Some(t) => t,
            None => {
                return Err(clock_error());
            },
        };
        self.close_stream_at(name, now)
    }

    /// Whether stream `name` exists and has not expired at time `now`.
    pub fn exists_at(&self, name: &str, now: i64) -> (b: bool)
        requires
            self.wf(),
        ensures
            b == exists_spec(self@, name@, now),
    {
        match self.locate(name) {
            Some(i) => !self.entry(i).config.is_expired_at(now),
            None => false,
        }
    }

    /// Whether stream `name` exists and has not expired now.
    /// False when the system clock reads before the Unix epoch.
    pub fn stream_exists(&self, name: &str) -> (b: bool)
        requires
            self.wf(),
        ensures
            !b || exists|now: i64| b == exists_spec(self@, name@, now),
    {
        match current_time_millis() {
            Some(now) => self.exists_at(name, now),
            None => false,
        }
    }

    /// Runs a producer append against one stream whose stale producer
    /// states are already dropped; returns the answer and the bytes added.
    #[verifier::rlimit(40)]
    fn producer_apply(
        e: &mut StreamEntry,
        messages: Vec<Vec<u8>>,
        content_type: &str,
        producer: &ProducerHeaders,
        should_close: bool,
        seq: Option<&str>,
        now: i64,
        total: u64,
        max_total: u64,
        max_stream: u64,
        Ghost(st0): Ghost<StoreView>,
    ) -> (r: (Result<ProducerAppendResult, Error>, u64))
        requires
            old(e).wf(st0.max_stream_bytes),
            st0.total_bytes == total,
            st0.max_total_bytes == max_total,
            st0.max_stream_bytes == max_stream,
            old(e).total_bytes <= total,
            total <= max_total,
        ensures
            final(e).wf(st0.max_stream_bytes),
            final(e).name == old(e).name,
            ({
                let (s1, added, rv) = producer_stream_step(
                    st0,
                    old(e).sview(),
                    batch_payloads(messages@),
                    content_type@,
                    producer.id@,
                    producer.epoch,
                    producer.seq,
                    should_close,
                    super::opt_text(seq),
                    now,
                );
                &&& final(e).sview() == s1
                &&& r.1 == added
                &&& producer_result(r.0) == rv
                &&& final(e).total_bytes == old(e).total_bytes + added
                &&& total + added <= max_total
            }),
    {
        let ghost s0 = e.sview();
        let ghost ms = batch_payloads(messages@);
        if messages.len() > 0 {
            match validate_content_type(e.config.content_type.as_str(), content_type) {
                Ok(()) => {},
                Err(err) => {
                    return (Err(err), 0);
                },
            }
        }
        let verdict = check_producer(e.producers.get(producer.id.as_str()), producer, e.closed);
        match verdict {
            Err(err) => {
                return (Err(err), 0);
            },
            Ok(ProducerCheck::Duplicate { epoch, seq }) => {
                let next_offset = e.next_offset(Ghost(max_stream));
                return (
                    Ok(
                        ProducerAppendResult::Duplicate {
                            epoch,
                            seq,
                            next_offset,
                            closed: e.closed,
                        },
                    ),
                    0,
                );
            },
            Ok(ProducerCheck::Accept) => {},
        }
        let last: Option<&str> = match &e.last_seq {
            Some(x) => Some(x.as_str()),
            None => None,
        };
        let pending = match validate_seq(last, seq) {
            Ok(p) => p,
            Err(err) => {
                return (Err(err), 0);
            },
        };
        let batch = match batch_len(&messages) {
            Some(b) => b,
            None => {
                return (Err(Error::MemoryLimitExceeded), 0);
            },
        };
        if messages.len() > 0 {
            match total.checked_add(batch) {
                Some(t) => {
                    if t > max_total {
                        return (Err(Error::MemoryLimitExceeded), 0);
                    }
                },
                None => {
                    return (Err(Error::MemoryLimitExceeded), 0);
                },
            }
            if e.total_bytes + batch > max_stream {
                return (Err(Error::StreamSizeLimitExceeded), 0);
            }
        }
        e.commit(messages, Ghost(max_stream));
        if let Some(p) = pending {
            e.last_seq = Some(p);
        }
        if should_close {
            e.closed = true;
        }
        e.set_producer(
            producer.id.clone(),
            ProducerState { epoch: producer.epoch, last_seq: producer.seq, updated_at: now },
            Ghost(max_stream),
        );
        let next_offset = e.next_offset(Ghost(max_stream));
        (
            Ok(
                ProducerAppendResult::Accepted {
                    epoch: producer.epoch,
                    seq: producer.seq,
                    next_offset,
                    closed: e.closed,
                },
            ),
            batch,
        )
    }

    /// Appends with producer sequencing at time `now`.
    pub fn append_with_producer_at(
        &mut self,
        name: &str,
        messages: Vec<Vec<u8>>,
        content_type: &str,
        producer: &ProducerHeaders,
        should_close: bool,
        seq: Option<&str>,
        now: i64,
    ) -> (r: Result<ProducerAppendResult, Error>)
        requires
            old(self).wf(),
        ensures
            final(self).wf(),
            (final(self)@, producer_result(r)) == producer_append_spec(
                old(self)@,
                name@,
                batch_payloads(messages@),
                content_type@,
                producer.id@,
                producer.epoch,
                producer.seq,
                should_close,
                super::opt_text(seq),
                now,
            ),
    {
        let ghost st = self@;
        let i = match self.locate(name) {
            Some(i) => i,
            None => {
                return Err(Error::NotFound(String::from_str(name)));
            },
        };
        if self.entry(i).config.is_expired_at(now) {
            return Err(Error::StreamExpired);
        }
        let ghost before = *self;
        let prev = self.entry(i).total_bytes;
        let mut e = self.take_entry(i);
        e.drop_stale_producers(now, Ghost(before.max_stream_bytes));
        let ghost s0 = e.sview();
        let ghost st0 = with_stream(st, name@, s0, 0);
        let total = self.total_bytes;
        let max_total = self.max_total_bytes;
        let max_stream = self.max_stream_bytes;
        let (r, added) = Self::producer_apply(
            &mut e,
            messages,
            content_type,
            producer,
            should_close,
            seq,
            now,
            total,
            max_total,
            max_stream,
            Ghost(st0),
        );
        let ghost s1 = e.sview();
        let ghost eb = e.total_bytes;
        assert(eb == prev + added);
        self.put_entry(i, e, prev, Ghost(before));
        proof {
            assert(self@.streams =~= with_stream(st0, name@, s1, added as nat).streams);
            assert(self@ =~= with_stream(st0, name@, s1, added as nat));
        }
        r
    }

    /// Appends with producer sequencing at the current time.
    /// Fails with a storage error, changing nothing, when the system clock
    /// reads before the Unix epoch.
    pub fn append_with_producer(
        &mut self,
        name: &str,
        messages: Vec<Vec<u8>>,
        content_type: &str,
        producer: &ProducerHeaders,
        should_close: bool,
        seq: Option<&str>,
    ) -> (r: Result<ProducerAppendResult, Error>)
        requires
            old(self).wf(),
        ensures
            final(self).wf(),
            (final(self)@ == old(self)@ && (r matches Err(e) && e@ == clock_unreadable())) || exists|now: i64|
                (final(self)@, producer_result(r)) == producer_append_spec(
                    old(self)@,
                    name@,
                    batch_payloads(messages@),
                    content_type@,
                    producer.id@,
                    producer.epoch,
                    producer.seq,
                    should_close,
                    super::opt_text(seq),
                    now,
                ),
    {
        let now = match current_time_millis() {
            Some(t) => t,
            None => {
                return Err(clock_error());
            },
        };
        self.append_with_producer_at(name, messages, content_type, producer, should_close, seq, now)
    }

    /// Creates a stream with its first messages, optionally closed, at time
    /// `now`, in one step.
    #[verifier::rlimit(40)]
    pub fn create_stream_with_data_at(
        &mut self,
        name: &str,
        config: StreamConfig,
        messages: Vec<Vec<u8>>,
        should_close: bool,
        now: i64,
    ) -> (r: Result<CreateWithDataResult, Error>)
        requires
            old(self).wf(),
        ensures
            final(self).wf(),
            (final(self)@, create_with_data_result(r)) == create_with_data_spec(
                old(self)@,
                name@,
                config@,
                batch_payloads(messages@),
                should_close,
                now,
            ),
    {
        let ghost st = self@;
        let ghost ms = batch_payloads(messages@);
        if let Some(i) = self.locate(name) {
            if self.entry(i).config.is_expired_at(now) {
                self.remove_stream(name, i);
            } else if self.entry(i).config == config {
                let e = self.entry(i);
                return Ok(
                    CreateWithDataResult {
                        status: CreateStreamResult::AlreadyExists,
                        next_offset: e.next_offset(Ghost(self.max_stream_bytes)),
                        closed: e.closed,
                    },
                );
            } else {
                return Err(Error::ConfigMismatch);
            }
        }
        let ghost base = self@;
        assert(base == drop_if_expired(st, name@, now));
        let mut e = StreamEntry::fresh(
            String::from_str(name),
            config,
            now,
            Ghost(self.max_stream_bytes),
        );
        let ghost fresh = e.sview();
        if messages.len() > 0 {
            let batch = match batch_len(&messages) {
                Some(b) => b,
                None => {
                    return Err(Error::MemoryLimitExceeded);
                },
            };
            match self.total_bytes.checked_add(batch) {
                Some(t) => {
                    if t > self.max_total_bytes {
                        return Err(Error::MemoryLimitExceeded);
                    }
                },
                None => {
                    return Err(Error::MemoryLimitExceeded);
                },
            }
            if batch > self.max_stream_bytes {
                return Err(Error::StreamSizeLimitExceeded);
            }
            e.commit(messages, Ghost(self.max_stream_bytes));
        } else {
            assert(fresh.payloads + ms =~= ms);
        }
        e.closed = should_close;
        let next_offset = e.next_offset(Ghost(self.max_stream_bytes));
        proof {
            assert(e.sview().payloads =~= ms);
        }
        let ghost sv = e.sview();
        self.insert_entry(e);
        proof {
            assert(self@ =~= with_stream(base, name@, sv, total_len(ms)));
        }
        Ok(CreateWithDataResult { status: CreateStreamResult::Created, next_offset, closed: should_close })
    }

    /// Creates a stream with its first messages at the current time.
    /// Fails with a storage error, changing nothing, when the system clock
    /// reads before the Unix epoch.
    pub fn create_stream_with_data(
        &mut self,
        name: &str,
        config: StreamConfig,
        messages: Vec<Vec<u8>>,
        should_close: bool,
    ) -> (r: Result<CreateWithDataResult, Error>)
        requires
            old(self).wf(),
        ensures
            final(self).wf(),
            (final(self)@ == old(self)@ && (r matches Err(e) && e@ == clock_unreadable())) || exists|now: i64|
                (final(self)@, create_with_data_result(r)) == create_with_data_spec(
                    old(self)@,
                    name@,
                    config@,
                    batch_payloads(messages@),
                    should_close,
                    now,
                ),
    {
        let now = match current_time_millis() {
            Some(t) => t,
            None => {
                return Err(clock_error());
            },
        };
        self.create_stream_with_data_at(name, config, messages, should_close, now)
    }
}

} // verus!
