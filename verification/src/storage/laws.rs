//! Properties of stream storage that span operations.

use super::memory::{
    append_spec, batch_append_spec, close_spec, create_spec, create_with_data_spec, delete_spec,
    drop_if_expired, empty_batch_error, head_spec, next_last_seq,
    live_producers, producer_append_spec, read_spec, read_start_of, stream_bytes, StoreView,
    StreamView,
};
use super::{
    config_equiv, config_expired, lemma_total_len_push, lemma_total_len_single, lemma_total_len_take, messages_from,
    next_offset_of, offset_of, total_len, CreateStreamResult, ProducerAppendView, ProducerState,
    StreamConfigView, PRODUCER_STATE_TTL_MS, ReadView, CreateWithDataView,
};
use super::file_stream::{admit_producer_spec, FileStreamView};
use super::log_index::{entry_offset, index_read_start, lemma_lens_total_take, lens_total};
use super::{seq_verdict, str_lt};
use super::ProducerCheck;
use crate::protocol::error::ErrorView;
use crate::protocol::offset::{
    canonical_text, components_of, is_canonical_text, is_offset_text, lemma_canonical_of_components,
    lemma_canonical_injective, lemma_canonical_order, lemma_canonical_text,
    lemma_components_roundtrip, now_text, start_text, text_lt,
};
use crate::handlers::get::{etag_spec, lemma_etag_identifies_read, message_data};
use vstd::prelude::*;

verus! {

/// Prefixes of a stream hold no more bytes than longer prefixes.
pub proof fn lemma_prefix_bytes_grow(ps: Seq<Seq<u8>>, i: int, j: int)
    requires
        0 <= i <= j <= ps.len(),
    ensures
        total_len(ps.take(i)) <= total_len(ps.take(j)),
        total_len(ps.take(j)) <= total_len(ps),
{
    lemma_total_len_take(ps.take(j), i);
    assert(ps.take(j).take(i) =~= ps.take(i));
    lemma_total_len_take(ps, j);
}

/// Within a stream, offsets strictly increase: the offset of an earlier
/// message sorts before that of a later one, and every message's offset sorts
/// before the stream's next offset.
pub proof fn lemma_offsets_increase(ps: Seq<Seq<u8>>, i: int, j: int)
    requires
        0 <= i < j <= ps.len(),
        ps.len() <= u64::MAX,
        total_len(ps) <= u64::MAX,
    ensures
        text_lt(offset_of(ps, i), offset_of(ps, j)),
        j == ps.len() ==> offset_of(ps, j) == next_offset_of(ps),
{
    lemma_prefix_bytes_grow(ps, i, j);
    lemma_canonical_order(
        i as u64,
        total_len(ps.take(i)) as u64,
        j as u64,
        total_len(ps.take(j)) as u64,
    );
    if j == ps.len() {
        assert(ps.take(j) =~= ps);
    }
}

/// Two successive successful appends to a stream return strictly increasing
/// offsets.
pub proof fn lemma_append_offsets_increase(
    st: StoreView,
    name: Seq<char>,
    d1: Seq<u8>,
    d2: Seq<u8>,
    ct: Seq<char>,
    now1: i64,
    now2: i64,
)
    requires
        st.streams.contains_key(name),
        st.streams[name].payloads.len() + 2 <= u64::MAX,
        st.max_stream_bytes <= u64::MAX,
        append_spec(st, name, d1, ct, now1).1 is Ok,
        append_spec(append_spec(st, name, d1, ct, now1).0, name, d2, ct, now2).1 is Ok,
    ensures
        text_lt(
            append_spec(st, name, d1, ct, now1).1->Ok_0,
            append_spec(append_spec(st, name, d1, ct, now1).0, name, d2, ct, now2).1->Ok_0,
        ),
{
    let ps = st.streams[name].payloads;
    let st1 = append_spec(st, name, d1, ct, now1).0;
    let ps1 = ps.push(d1);
    assert(st1.streams[name].payloads == ps1);
    let ps2 = ps1.push(d2);
    lemma_total_len_push(ps, d1);
    lemma_total_len_push(ps1, d2);
    lemma_total_len_single(d1);
    lemma_total_len_single(d2);
    assert(total_len(ps2) <= u64::MAX);
    lemma_offsets_increase(ps2, ps.len() as int, ps1.len() as int);
    assert(ps2.take(ps.len() as int) =~= ps);
    assert(ps2.take(ps1.len() as int) =~= ps1);
}

/// Reading from the offset of message `i` starts at message `i`; reading
/// from the next offset returns nothing.
pub proof fn lemma_read_start_at_message(ps: Seq<Seq<u8>>, i: int)
    requires
        0 <= i <= ps.len(),
        ps.len() <= u64::MAX,
        total_len(ps) <= u64::MAX,
    ensures
        read_start_of(ps, offset_of(ps, i)) == i,
{
    lemma_prefix_bytes_grow(ps, i, i);
    lemma_components_roundtrip(i as u64, total_len(ps.take(i)) as u64);
    assert(offset_of(ps, i).len() == 33);
}

/// Read-your-writes: right after a successful append, reading the stream
/// from the returned offset yields exactly the appended message.
pub proof fn lemma_read_your_append(
    st: StoreView,
    name: Seq<char>,
    data: Seq<u8>,
    ct: Seq<char>,
    now: i64,
    later: i64,
)
    requires
        st.streams.contains_key(name),
        st.streams[name].payloads.len() + 1 <= u64::MAX,
        st.max_stream_bytes <= u64::MAX,
        append_spec(st, name, data, ct, now).1 is Ok,
        !config_expired(st.streams[name].config, later),
    ensures
        ({
            let (st1, r) = append_spec(st, name, data, ct, now);
            let rd = read_spec(st1, name, r->Ok_0, later);
            &&& rd is Ok
            &&& rd->Ok_0.messages.len() == 1
            &&& rd->Ok_0.messages[0].data == data
            &&& rd->Ok_0.messages[0].offset == r->Ok_0
        }),
{
    let ps = st.streams[name].payloads;
    let ps1 = ps.push(data);
    let (st1, r) = append_spec(st, name, data, ct, now);
    assert(st1.streams[name].payloads == ps1);
    lemma_total_len_push(ps, data);
    lemma_total_len_single(data);
    assert(ps1.take(ps.len() as int) =~= ps);
    assert(r->Ok_0 == offset_of(ps1, ps.len() as int));
    lemma_read_start_at_message(ps1, ps.len() as int);
    let rd = read_spec(st1, name, r->Ok_0, later);
    assert(rd->Ok_0.messages =~= messages_from(ps1, ps.len() as int));
}

/// A refused batch append leaves the store exactly as it was: a batch is
/// written whole or not at all.
pub proof fn lemma_batch_all_or_nothing(
    st: StoreView,
    name: Seq<char>,
    msgs: Seq<Seq<u8>>,
    ct: Seq<char>,
    seq: Option<Seq<char>>,
    now: i64,
)
    ensures
        batch_append_spec(st, name, msgs, ct, seq, now).1 is Err ==> batch_append_spec(
            st,
            name,
            msgs,
            ct,
            seq,
            now,
        ).0 == st,
        batch_append_spec(st, name, msgs, ct, seq, now).1 is Ok ==> batch_append_spec(
            st,
            name,
            msgs,
            ct,
            seq,
            now,
        ).0.streams[name].payloads == st.streams[name].payloads + msgs,
{
}

/// A create-with-data whose messages do not fit is not created: no stream
/// is left under the name.
pub proof fn lemma_create_with_data_rolls_back(
    st: StoreView,
    name: Seq<char>,
    config: StreamConfigView,
    msgs: Seq<Seq<u8>>,
    should_close: bool,
    now: i64,
)
    requires
        create_with_data_spec(st, name, config, msgs, should_close, now).1 matches Err(e) && e
            != ErrorView::ConfigMismatch,
    ensures
        !create_with_data_spec(st, name, config, msgs, should_close, now).0.streams.contains_key(
            name,
        ),
{
}

/// Creating the same stream twice is idempotent: the second create reports
/// the stream as already existing and changes nothing.
pub proof fn lemma_create_idempotent(
    st: StoreView,
    name: Seq<char>,
    config: StreamConfigView,
    now1: i64,
    now2: i64,
)
    requires
        create_spec(st, name, config, now1).1 is Ok,
        !config_expired(create_spec(st, name, config, now1).0.streams[name].config, now2),
    ensures
        create_spec(create_spec(st, name, config, now1).0, name, config, now2) == (
            create_spec(st, name, config, now1).0,
            Ok::<CreateStreamResult, ErrorView>(CreateStreamResult::AlreadyExists),
        ),
{
    let st1 = create_spec(st, name, config, now1).0;
    assert(st1.streams.contains_key(name));
    assert(config_equiv(st1.streams[name].config, config));
}

/// A closed stream refuses every later append (while it has not expired).
pub proof fn lemma_closed_refuses_appends(
    st: StoreView,
    name: Seq<char>,
    data: Seq<u8>,
    ct: Seq<char>,
    now1: i64,
    now2: i64,
)
    requires
        close_spec(st, name, now1).1 is Ok,
        !config_expired(st.streams[name].config, now2),
    ensures
        append_spec(close_spec(st, name, now1).0, name, data, ct, now2) == (
            close_spec(st, name, now1).0,
            Err::<Seq<char>, ErrorView>(ErrorView::StreamClosed),
        ),
{
}

/// Deleting a stream removes it and releases exactly its bytes.
pub proof fn lemma_delete_releases(st: StoreView, name: Seq<char>)
    requires
        delete_spec(st, name).1 is Ok,
        stream_bytes(st.streams[name]) <= st.total_bytes,
    ensures
        !delete_spec(st, name).0.streams.contains_key(name),
        delete_spec(st, name).0.total_bytes + stream_bytes(st.streams[name]) == st.total_bytes,
{
}

/// Idempotent producers: retrying an accepted producer append within the
/// retention window is answered as a duplicate and writes nothing.
pub proof fn lemma_producer_retry_is_duplicate(
    st: StoreView,
    name: Seq<char>,
    msgs: Seq<Seq<u8>>,
    ct: Seq<char>,
    id: Seq<char>,
    epoch: u64,
    seq_no: u64,
    should_close: bool,
    seq: Option<Seq<char>>,
    now1: i64,
    now2: i64,
)
    requires
        producer_append_spec(st, name, msgs, ct, id, epoch, seq_no, should_close, seq, now1).1 matches Ok(
            ProducerAppendView::Accepted { .. },
        ),
        now2 - now1 <= PRODUCER_STATE_TTL_MS,
        !config_expired(st.streams[name].config, now2),
    ensures
        ({
            let st1 = producer_append_spec(
                st,
                name,
                msgs,
                ct,
                id,
                epoch,
                seq_no,
                should_close,
                seq,
                now1,
            ).0;
            let (st2, r2) = producer_append_spec(
                st1,
                name,
                msgs,
                ct,
                id,
                epoch,
                seq_no,
                should_close,
                seq,
                now2,
            );
            &&& r2 matches Ok(ProducerAppendView::Duplicate { epoch: e2, seq: q2, .. })
            &&& e2 == epoch && q2 == seq_no
            &&& st2.streams[name].payloads == st1.streams[name].payloads
            &&& st2.total_bytes == st1.total_bytes
        }),
{
    let st1 = producer_append_spec(st, name, msgs, ct, id, epoch, seq_no, should_close, seq, now1).0;
    let s1 = st1.streams[name];
    assert(s1.producers.contains_key(id));
    assert(s1.producers[id] == ProducerState { epoch, last_seq: seq_no, updated_at: now1 });
    let s0b = StreamView { producers: live_producers(s1.producers, now2), ..s1 };
    assert(s0b.producers.contains_key(id));
    assert(s0b.producers[id] == ProducerState { epoch, last_seq: seq_no, updated_at: now1 });
}

/// Epoch fencing: once a producer has been accepted at some epoch, an append
/// from an older epoch of that producer is refused (within the retention
/// window, while the stream has not expired).
pub proof fn lemma_producer_epoch_fenced(
    st: StoreView,
    name: Seq<char>,
    msgs: Seq<Seq<u8>>,
    ct: Seq<char>,
    id: Seq<char>,
    epoch: u64,
    seq_no: u64,
    should_close: bool,
    seq: Option<Seq<char>>,
    now1: i64,
    msgs2: Seq<Seq<u8>>,
    old_epoch: u64,
    seq2: u64,
    now2: i64,
)
    requires
        producer_append_spec(st, name, msgs, ct, id, epoch, seq_no, should_close, seq, now1).1 matches Ok(
            ProducerAppendView::Accepted { .. },
        ),
        old_epoch < epoch,
        now2 - now1 <= PRODUCER_STATE_TTL_MS,
        !config_expired(st.streams[name].config, now2),
        msgs2.len() > 0 ==> msgs.len() > 0,
    ensures
        ({
            let st1 = producer_append_spec(
                st,
                name,
                msgs,
                ct,
                id,
                epoch,
                seq_no,
                should_close,
                seq,
                now1,
            ).0;
            producer_append_spec(st1, name, msgs2, ct, id, old_epoch, seq2, false, None, now2).1
                == Err::<ProducerAppendView, ErrorView>(
                ErrorView::EpochFenced { current: epoch, received: old_epoch },
            )
        }),
{
    let st1 = producer_append_spec(st, name, msgs, ct, id, epoch, seq_no, should_close, seq, now1).0;
    let s1 = st1.streams[name];
    assert(s1.producers.contains_key(id));
    let s0b = StreamView { producers: live_producers(s1.producers, now2), ..s1 };
    assert(s0b.producers.contains_key(id));
}

/// The file-backed and the in-memory stores decide a producer append alike:
/// on a stream with the same configuration, closed flag and producer states,
/// the file stream's admission refuses with exactly the memory store's error,
/// and reports a duplicate with the same recorded epoch and sequence.
pub proof fn lemma_file_and_memory_admit_alike(
    st: StoreView,
    name: Seq<char>,
    f: FileStreamView,
    msgs: Seq<Seq<u8>>,
    ct: Seq<char>,
    id: Seq<char>,
    epoch: u64,
    seq_no: u64,
    should_close: bool,
    seq: Option<Seq<char>>,
    now: i64,
)
    requires
        st.streams.contains_key(name),
        st.streams[name].config == f.config,
        st.streams[name].closed == f.closed,
        st.streams[name].producers == f.producers,
    ensures
        ({
            let v = admit_producer_spec(f, msgs.len() > 0, ct, id, epoch, seq_no, now).1;
            let r = producer_append_spec(st, name, msgs, ct, id, epoch, seq_no, should_close, seq, now).1;
            &&& (v matches Err(e) ==> r == Err::<ProducerAppendView, ErrorView>(e))
            &&& (v matches Ok(ProducerCheck::Duplicate { epoch: e2, seq: q2 }) ==> (r matches Ok(
                ProducerAppendView::Duplicate { epoch: e3, seq: q3, .. },
            ) && e3 == e2 && q3 == q2))
        }),
{
}

/// Reading from an offset: from `-1` a read starts at the first message,
/// from `now` at the tail, and from any other offset it returns exactly the
/// messages whose offsets do not sort before it, in order.
pub proof fn lemma_read_from_offset(ps: Seq<Seq<u8>>, from: Seq<char>, i: int)
    requires
        is_offset_text(from),
        ps.len() <= u64::MAX,
        total_len(ps) <= u64::MAX,
        0 <= i < ps.len(),
    ensures
        from == start_text() ==> read_start_of(ps, from) == 0,
        from == now_text() ==> read_start_of(ps, from) == ps.len(),
        from != start_text() && from != now_text() ==> (i >= read_start_of(ps, from) <==> !text_lt(
            offset_of(ps, i),
            from,
        )),
{
    if from != start_text() && from != now_text() {
        assert(is_canonical_text(from));
        lemma_canonical_of_components(from);
        let (a, b) = components_of(from)->0;
        lemma_prefix_bytes_grow(ps, i, i);
        lemma_canonical_order(i as u64, total_len(ps.take(i)) as u64, a, b);
        if a < ps.len() {
            lemma_prefix_bytes_grow(ps, a as int, a as int);
        }
    }
}

/// A read's entity tag changes once a message is appended: reading a stream
/// from the same offset before and after a successful append gives different
/// tags, so an `If-None-Match` taken before the append is not answered 304.
pub proof fn lemma_append_changes_etag(
    st: StoreView,
    name: Seq<char>,
    data: Seq<u8>,
    ct: Seq<char>,
    now: i64,
    from: Seq<char>,
    t1: i64,
    t2: i64,
)
    requires
        st.streams.contains_key(name),
        st.streams[name].payloads.len() + 1 <= u64::MAX,
        st.max_stream_bytes <= u64::MAX,
        read_spec(st, name, from, t1) is Ok,
        append_spec(st, name, data, ct, now).1 is Ok,
        read_spec(append_spec(st, name, data, ct, now).0, name, from, t2) is Ok,
    ensures
        etag_spec(from, read_spec(st, name, from, t1)->Ok_0) != etag_spec(
            from,
            read_spec(append_spec(st, name, data, ct, now).0, name, from, t2)->Ok_0,
        ),
{
    let ps = st.streams[name].payloads;
    let st1 = append_spec(st, name, data, ct, now).0;
    let ps1 = ps.push(data);
    assert(st1.streams[name].payloads == ps1);
    lemma_total_len_push(ps, data);
    lemma_total_len_single(data);
    let r1 = read_spec(st, name, from, t1)->Ok_0;
    let r2 = read_spec(st1, name, from, t2)->Ok_0;
    lemma_canonical_text(ps.len() as u64, total_len(ps) as u64);
    lemma_canonical_text(ps1.len() as u64, total_len(ps1) as u64);
    if etag_spec(from, r1) == etag_spec(from, r2) {
        lemma_etag_identifies_read(from, r1, r2);
        lemma_canonical_injective(
            ps.len() as u64,
            total_len(ps) as u64,
            ps1.len() as u64,
            total_len(ps1) as u64,
        );
    }
}

/// What a stream's metadata says agrees with its messages: the next offset is
/// the offset of the message count and byte total; a read from `-1` returns
/// that many messages, whose bytes add up to the total; each message's offset
/// is its index and the bytes before it, and its length is its data's length.
pub proof fn lemma_head_matches_read(st: StoreView, name: Seq<char>, now: i64)
    requires
        st.streams.contains_key(name),
        !config_expired(st.streams[name].config, now),
        st.streams[name].payloads.len() <= u64::MAX,
        total_len(st.streams[name].payloads) <= u64::MAX,
    ensures
        ({
            let h = head_spec(st, name, now)->Ok_0;
            let ms = read_spec(st, name, start_text(), now)->Ok_0.messages;
            &&& head_spec(st, name, now) is Ok
            &&& read_spec(st, name, start_text(), now) is Ok
            &&& h.next_offset == canonical_text(h.message_count, h.total_bytes)
            &&& ms.len() == h.message_count
            &&& total_len(message_data(ms)) == h.total_bytes
            &&& forall|i: int|
                0 <= i < ms.len() ==> (#[trigger] ms[i]).offset == canonical_text(
                    i as u64,
                    total_len(message_data(ms).take(i)) as u64,
                ) && ms[i].byte_len == ms[i].data.len()
        }),
{
    let ps = st.streams[name].payloads;
    assert(start_text() != now_text()) by {
        assert(start_text().len() == 2 && now_text().len() == 3);
    }
    let ms = read_spec(st, name, start_text(), now)->Ok_0.messages;
    assert(read_start_of(ps, start_text()) == 0);
    assert(ms == messages_from(ps, 0));
    assert(message_data(ms) =~= ps);
    let h = head_spec(st, name, now)->Ok_0;
    assert(h.message_count == ps.len() && h.total_bytes == total_len(ps));
    assert(h.next_offset == next_offset_of(ps));
    assert forall|i: int| 0 <= i < ms.len() implies (#[trigger] ms[i]).offset == canonical_text(
        i as u64,
        total_len(message_data(ms).take(i)) as u64,
    ) && ms[i].byte_len == ms[i].data.len() by {
        assert(ms[i] == messages_from(ps, 0)[i]);
        assert(message_data(ms).take(i) == ps.take(i));
        assert(ps.take(i).push(ps[i]) =~= ps.take(i + 1));
        lemma_total_len_push(ps.take(i), ps[i]);
        lemma_total_len_take(ps, i + 1);
    }
}

/// Appending one message to an open stream: the answer is the stream's next
/// offset before the append; afterwards the stream holds one more message and
/// that many more bytes, its next offset sorts after the old one, the store
/// holds that many more bytes, and the last message a read from `-1` returns
/// is the appended one at the returned offset.
pub proof fn lemma_append_law(
    st: StoreView,
    name: Seq<char>,
    data: Seq<u8>,
    ct: Seq<char>,
    now: i64,
    later: i64,
)
    requires
        st.streams.contains_key(name),
        !config_expired(st.streams[name].config, now),
        !config_expired(st.streams[name].config, later),
        st.streams[name].payloads.len() + 1 <= u64::MAX,
        append_spec(st, name, data, ct, now).1 is Ok,
    ensures
        ({
            let h = head_spec(st, name, now)->Ok_0;
            let (st1, r) = append_spec(st, name, data, ct, now);
            let h2 = head_spec(st1, name, later)->Ok_0;
            let ms = read_spec(st1, name, start_text(), later)->Ok_0.messages;
            &&& head_spec(st1, name, later) is Ok
            &&& read_spec(st1, name, start_text(), later) is Ok
            &&& r->Ok_0 == h.next_offset
            &&& h2.message_count == h.message_count + 1
            &&& h2.total_bytes == h.total_bytes + data.len()
            &&& text_lt(h.next_offset, h2.next_offset)
            &&& st1.total_bytes == st.total_bytes + data.len()
            &&& ms.len() > 0
            &&& ms.last().offset == r->Ok_0
            &&& ms.last().data == data
        }),
{
    let ps = st.streams[name].payloads;
    let (st1, r) = append_spec(st, name, data, ct, now);
    let ps1 = ps.push(data);
    assert(st1.streams[name].payloads == ps1);
    lemma_total_len_push(ps, data);
    lemma_total_len_single(data);
    assert(start_text() != now_text()) by {
        assert(start_text().len() == 2 && now_text().len() == 3);
    }
    lemma_offsets_increase(ps1, ps.len() as int, ps1.len() as int);
    assert(ps1.take(ps.len() as int) =~= ps);
    let ms = read_spec(st1, name, start_text(), later)->Ok_0.messages;
    assert(ms =~= messages_from(ps1, 0));
}

/// Reading a stream: a missing stream is not found, an expired one is refused;
/// otherwise the read returns the stream's messages in order from where the
/// offset says (none from `now`, all from `-1`, else exactly those whose
/// offsets do not sort before it), with the next offset of the message count
/// and byte total, at the tail and with the stream's closed flag; reading
/// again from the returned next offset returns nothing.
pub proof fn lemma_read_law(st: StoreView, name: Seq<char>, from: Seq<char>, now: i64)
    requires
        is_offset_text(from),
        st.streams.contains_key(name) ==> st.streams[name].payloads.len() <= u64::MAX,
        st.streams.contains_key(name) ==> total_len(st.streams[name].payloads) <= u64::MAX,
    ensures
        !st.streams.contains_key(name) ==> read_spec(st, name, from, now) == Err::<
            ReadView,
            ErrorView,
        >(ErrorView::NotFound(name)),
        st.streams.contains_key(name) && config_expired(st.streams[name].config, now)
            ==> read_spec(st, name, from, now) == Err::<ReadView, ErrorView>(
            ErrorView::StreamExpired,
        ),
        st.streams.contains_key(name) && !config_expired(st.streams[name].config, now) ==> ({
            let ps = st.streams[name].payloads;
            let r = read_spec(st, name, from, now)->Ok_0;
            let k = read_start_of(ps, from);
            &&& read_spec(st, name, from, now) is Ok
            &&& r.next_offset == canonical_text(ps.len() as u64, total_len(ps) as u64)
            &&& r.at_tail
            &&& r.closed == st.streams[name].closed
            &&& k <= ps.len()
            &&& r.messages == messages_from(ps, k as int)
            &&& (from == now_text() ==> r.messages.len() == 0)
            &&& (from == start_text() ==> r.messages == messages_from(ps, 0))
            &&& (from != start_text() && from != now_text() ==> forall|i: int|
                0 <= i < ps.len() ==> (i >= k <==> !text_lt(#[trigger] offset_of(ps, i), from)))
            &&& read_spec(st, name, r.next_offset, now) is Ok
            &&& read_spec(st, name, r.next_offset, now)->Ok_0.messages.len() == 0
        }),
{
    if st.streams.contains_key(name) && !config_expired(st.streams[name].config, now) {
        let ps = st.streams[name].payloads;
        assert(start_text() != now_text()) by {
            assert(start_text().len() == 2 && now_text().len() == 3);
        }
        if from != start_text() && from != now_text() {
            assert forall|i: int| 0 <= i < ps.len() implies (i >= read_start_of(ps, from)
                <==> !text_lt(#[trigger] offset_of(ps, i), from)) by {
                lemma_read_from_offset(ps, from, i);
            }
        }
        lemma_read_start_at_message(ps, ps.len() as int);
        assert(ps.take(ps.len() as int) =~= ps);
        if from != start_text() && from != now_text() {
            lemma_canonical_of_components(from);
        }
    }
}

/// Appending a batch: an empty batch is refused; a `Stream-Seq` that does not
/// sort after the last one accepted is refused; any refusal changes nothing;
/// an accepted batch adds its messages in order at consecutive offsets after
/// the old ones, answers the stream's new next offset, records the
/// `Stream-Seq` when one is given, and adds its bytes to the store.
pub proof fn lemma_batch_append_law(
    st: StoreView,
    name: Seq<char>,
    msgs: Seq<Seq<u8>>,
    ct: Seq<char>,
    seq: Option<Seq<char>>,
    now: i64,
)
    ensures
        msgs.len() == 0 ==> batch_append_spec(st, name, msgs, ct, seq, now) == (
            st,
            Err::<Seq<char>, ErrorView>(empty_batch_error()),
        ),
        (msgs.len() > 0 && st.streams.contains_key(name) && !config_expired(
            st.streams[name].config,
            now,
        ) && !st.streams[name].closed && crate::storage::content_type_accepted(
            st.streams[name].config.content_type,
            ct,
        ) && seq is Some && st.streams[name].last_seq is Some && !crate::storage::str_lt(
            st.streams[name].last_seq->0,
            seq->0,
        )) ==> batch_append_spec(st, name, msgs, ct, seq, now).1 == Err::<Seq<char>, ErrorView>(
            ErrorView::SeqOrderingViolation { last: st.streams[name].last_seq->0, given: seq->0 },
        ),
        batch_append_spec(st, name, msgs, ct, seq, now).1 is Err ==> batch_append_spec(
            st,
            name,
            msgs,
            ct,
            seq,
            now,
        ).0 == st,
        batch_append_spec(st, name, msgs, ct, seq, now).1 is Ok ==> ({
            let (st1, r) = batch_append_spec(st, name, msgs, ct, seq, now);
            let s = st.streams[name];
            let s1 = st1.streams[name];
            &&& s1.payloads == s.payloads + msgs
            &&& r->Ok_0 == next_offset_of(s1.payloads)
            &&& s1.last_seq == (if seq is Some { seq } else { s.last_seq })
            &&& s1.closed == s.closed
            &&& st1.total_bytes == st.total_bytes + total_len(msgs)
            &&& forall|j: int|
                0 <= j < msgs.len() ==> (#[trigger] messages_from(s1.payloads, 0)[s.payloads.len()
                    + j]).data == msgs[j] && messages_from(s1.payloads, 0)[s.payloads.len()
                    + j].offset == offset_of(s1.payloads, s.payloads.len() + j)
        }),
{
    if batch_append_spec(st, name, msgs, ct, seq, now).1 is Ok {
        let st1 = batch_append_spec(st, name, msgs, ct, seq, now).0;
        let s = st.streams[name];
        assert(st.total_bytes + total_len(msgs) <= st.max_total_bytes);
        assert forall|j: int| 0 <= j < msgs.len() implies (#[trigger] messages_from(
            st1.streams[name].payloads,
            0,
        )[s.payloads.len() + j]).data == msgs[j] by {
            assert((s.payloads + msgs)[s.payloads.len() + j] == msgs[j]);
        }
    }
}

/// Creating a stream with data: with no live stream under the name, either
/// the stream is created holding exactly the messages, closed as asked, and
/// the answer gives its next offset, or nothing is created (an expired stream
/// under the name is still released); a live stream with the same
/// configuration is answered as already existing with its own next offset and
/// closed flag, ignoring the messages; one with another configuration is a
/// mismatch. Neither live case changes anything.
pub proof fn lemma_create_with_data_law(
    st: StoreView,
    name: Seq<char>,
    config: StreamConfigView,
    msgs: Seq<Seq<u8>>,
    should_close: bool,
    now: i64,
)
    ensures
        ({
            let (st1, r) = create_with_data_spec(st, name, config, msgs, should_close, now);
            let live = st.streams.contains_key(name) && !config_expired(st.streams[name].config, now);
            &&& (!live && r is Ok) ==> (r->Ok_0.status == CreateStreamResult::Created
                && st1.streams.contains_key(name) && st1.streams[name].payloads == msgs
                && st1.streams[name].closed == should_close && r->Ok_0.closed == should_close
                && r->Ok_0.next_offset == next_offset_of(msgs))
            &&& (!live && r is Err) ==> (st1 == drop_if_expired(st, name, now)
                && !st1.streams.contains_key(name))
            &&& (live && config_equiv(st.streams[name].config, config)) ==> (st1 == st
                && r == Ok::<CreateWithDataView, ErrorView>(
                CreateWithDataView {
                    status: CreateStreamResult::AlreadyExists,
                    next_offset: next_offset_of(st.streams[name].payloads),
                    closed: st.streams[name].closed,
                },
            ))
            &&& (live && !config_equiv(st.streams[name].config, config)) ==> (st1 == st
                && r == Err::<CreateWithDataView, ErrorView>(ErrorView::ConfigMismatch))
        }),
{
}

/// In a file-backed stream's index, a read from a message's own offset starts
/// at that message, and a read from the next offset starts at the tail: the
/// start for the offset of message `i` (`i` messages and the bytes before
/// them) is `i`, for every `i` up to the message count.
pub proof fn lemma_index_read_from_message_offset(v: Seq<(nat, nat)>, i: int)
    requires
        0 <= i <= v.len(),
        v.len() <= u64::MAX,
        lens_total(v) <= u64::MAX,
    ensures
        index_read_start(v, canonical_text(i as u64, lens_total(v.take(i)) as u64)) == i,
        i < v.len() ==> index_read_start(v, entry_offset(v, i)) < v.len(),
{
    lemma_lens_total_take(v, i);
    lemma_components_roundtrip(i as u64, lens_total(v.take(i)) as u64);
    assert(canonical_text(i as u64, lens_total(v.take(i)) as u64).len() == 33);
    assert(start_text().len() == 2 && now_text().len() == 3);
}

/// Two configurations with different TTLs are never the same for an
/// idempotent create: creating a live stream again with another TTL is
/// refused as a mismatch and changes nothing.
pub proof fn lemma_different_ttl_is_mismatch(
    st: StoreView,
    name: Seq<char>,
    config: StreamConfigView,
    now: i64,
)
    requires
        st.streams.contains_key(name),
        !config_expired(st.streams[name].config, now),
        st.streams[name].config.ttl_seconds != config.ttl_seconds,
    ensures
        !config_equiv(st.streams[name].config, config),
        !config_equiv(config, st.streams[name].config),
        create_spec(st, name, config, now) == (st, Err::<CreateStreamResult, ErrorView>(
            ErrorView::ConfigMismatch,
        )),
{
}

/// Configurations that differ in content type or in the created-closed flag
/// are never the same either; with no TTL, neither are ones whose absolute
/// expiries differ.
pub proof fn lemma_config_equiv_needs_same_fields(a: StreamConfigView, b: StreamConfigView)
    ensures
        config_equiv(a, b) ==> a.content_type == b.content_type && a.ttl_seconds == b.ttl_seconds
            && a.created_closed == b.created_closed,
        config_equiv(a, b) && a.ttl_seconds is None ==> a.expires_at == b.expires_at,
        a == b ==> config_equiv(a, b),
{
}

/// The string order of `Stream-Seq` values is strict: no text sorts before
/// itself, and of two texts at most one sorts before the other.
pub proof fn lemma_str_lt_strict(a: Seq<char>, b: Seq<char>)
    ensures
        !str_lt(a, a),
        !(str_lt(a, b) && str_lt(b, a)),
    decreases a.len(),
{
    if a.len() > 0 {
        lemma_str_lt_strict(a.drop_first(), a.drop_first());
        if b.len() > 0 {
            lemma_str_lt_strict(a.drop_first(), b.drop_first());
        }
    }
}

/// A text sorts before any longer text that starts with it, and the empty
/// text sorts before every other text.
pub proof fn lemma_str_lt_prefix(a: Seq<char>, c: Seq<char>)
    requires
        c.len() > 0,
    ensures
        str_lt(a, a + c),
    decreases a.len(),
{
    if a.len() > 0 {
        lemma_str_lt_prefix(a.drop_first(), c);
        assert((a + c).drop_first() =~= a.drop_first() + c);
        assert((a + c)[0] == a[0]);
    } else {
        assert(a + c =~= c);
    }
}

/// A `Stream-Seq` equal to the last one accepted is refused: the sequence
/// check refuses it, and a batch append carrying it (to a live, open stream
/// of the same content type) fails with an ordering violation and changes
/// nothing.
pub proof fn lemma_repeated_stream_seq_refused(
    st: StoreView,
    name: Seq<char>,
    msgs: Seq<Seq<u8>>,
    ct: Seq<char>,
    x: Seq<char>,
    now: i64,
)
    requires
        msgs.len() > 0,
        st.streams.contains_key(name),
        !config_expired(st.streams[name].config, now),
        !st.streams[name].closed,
        crate::storage::content_type_accepted(st.streams[name].config.content_type, ct),
        st.streams[name].last_seq == Some(x),
    ensures
        seq_verdict(Some(x), Some(x)) == Err::<Option<Seq<char>>, ErrorView>(
            ErrorView::SeqOrderingViolation { last: x, given: x },
        ),
        batch_append_spec(st, name, msgs, ct, Some(x), now) == (st, Err::<Seq<char>, ErrorView>(
            ErrorView::SeqOrderingViolation { last: x, given: x },
        )),
{
    lemma_str_lt_strict(x, x);
}

/// After a batch accepted with a `Stream-Seq`, a second batch with the same
/// value is refused and changes nothing.
pub proof fn lemma_stream_seq_not_accepted_twice(
    st: StoreView,
    name: Seq<char>,
    m1: Seq<Seq<u8>>,
    m2: Seq<Seq<u8>>,
    ct: Seq<char>,
    x: Seq<char>,
    now1: i64,
    now2: i64,
)
    requires
        batch_append_spec(st, name, m1, ct, Some(x), now1).1 is Ok,
        m2.len() > 0,
        !config_expired(st.streams[name].config, now2),
    ensures
        ({
            let st1 = batch_append_spec(st, name, m1, ct, Some(x), now1).0;
            batch_append_spec(st1, name, m2, ct, Some(x), now2) == (st1, Err::<
                Seq<char>,
                ErrorView,
            >(ErrorView::SeqOrderingViolation { last: x, given: x }))
        }),
{
    let st1 = batch_append_spec(st, name, m1, ct, Some(x), now1).0;
    assert(st1.streams[name].last_seq == Some(x));
    assert(st1.streams[name].config == st.streams[name].config);
    lemma_repeated_stream_seq_refused(st1, name, m2, ct, x, now2);
}

/// Closing is idempotent: closing a live stream that is already closed
/// succeeds and leaves the store as it was.
pub proof fn lemma_close_already_closed(st: StoreView, name: Seq<char>, now: i64)
    requires
        st.streams.contains_key(name),
        !config_expired(st.streams[name].config, now),
        st.streams[name].closed,
    ensures
        close_spec(st, name, now) == (st, Ok::<(), ErrorView>(())),
{
    let s = st.streams[name];
    assert(StreamView { closed: true, ..s } == s);
    assert(st.streams.insert(name, s) =~= st.streams);
    assert(close_spec(st, name, now).0 =~= st);
}

/// Closing twice: the second close of a live stream succeeds too and changes
/// nothing more; the stream stays closed.
pub proof fn lemma_close_twice(st: StoreView, name: Seq<char>, now1: i64, now2: i64)
    requires
        close_spec(st, name, now1).1 is Ok,
        !config_expired(st.streams[name].config, now2),
    ensures
        close_spec(close_spec(st, name, now1).0, name, now2) == (close_spec(st, name, now1).0, Ok::<
            (),
            ErrorView,
        >(())),
        close_spec(st, name, now1).0.streams[name].closed,
{
    let st1 = close_spec(st, name, now1).0;
    assert(st1.streams[name].config == st.streams[name].config);
    lemma_close_already_closed(st1, name, now2);
}

/// The first difference decides the string order: when `a` and `b` agree on
/// their first `i` characters and `a`'s next character is the smaller one,
/// `a` sorts before `b` and not after it.
pub proof fn lemma_str_lt_first_difference(a: Seq<char>, b: Seq<char>, i: int)
    requires
        0 <= i < a.len(),
        i < b.len(),
        a.take(i) == b.take(i),
        a[i] < b[i],
    ensures
        str_lt(a, b),
        !str_lt(b, a),
    decreases i,
{
    if i > 0 {
        assert(a[0] == a.take(i)[0] && b[0] == b.take(i)[0]);
        assert(a.drop_first().take(i - 1) =~= a.take(i).drop_first());
        assert(b.drop_first().take(i - 1) =~= b.take(i).drop_first());
        lemma_str_lt_first_difference(a.drop_first(), b.drop_first(), i - 1);
    }
}

/// Two configurations are the same for an idempotent create exactly when
/// content type, TTL and created-closed flag agree and, without a TTL, the
/// absolute expiry agrees too; with a TTL the expiry (which drifts with the
/// clock) does not matter.
pub proof fn lemma_config_equiv_exactly(a: StreamConfigView, b: StreamConfigView)
    ensures
        config_equiv(a, b) <==> (a.content_type == b.content_type && a.ttl_seconds
            == b.ttl_seconds && a.created_closed == b.created_closed && (a.ttl_seconds is Some
            || a.expires_at == b.expires_at)),
        config_equiv(a, b) == config_equiv(b, a),
{
}

/// Closing a stream: a missing stream is not found, an expired one is
/// refused, and a live one is closed with nothing else about it or the
/// store changed.
pub proof fn lemma_close_law(st: StoreView, name: Seq<char>, now: i64)
    ensures
        !st.streams.contains_key(name) ==> close_spec(st, name, now) == (st, Err::<(), ErrorView>(
            ErrorView::NotFound(name),
        )),
        st.streams.contains_key(name) && config_expired(st.streams[name].config, now)
            ==> close_spec(st, name, now) == (st, Err::<(), ErrorView>(ErrorView::StreamExpired)),
        st.streams.contains_key(name) && !config_expired(st.streams[name].config, now) ==> ({
            let st1 = close_spec(st, name, now).0;
            &&& close_spec(st, name, now).1 is Ok
            &&& st1.streams.dom() == st.streams.dom()
            &&& st1.streams[name] == (StreamView { closed: true, ..st.streams[name] })
            &&& forall|k: Seq<char>| #[trigger] st.streams.contains_key(k) && k != name
                ==> st1.streams[k] == st.streams[k]
            &&& st1.total_bytes == st.total_bytes
            &&& st1.max_total_bytes == st.max_total_bytes
            &&& st1.max_stream_bytes == st.max_stream_bytes
        }),
{
    if st.streams.contains_key(name) && !config_expired(st.streams[name].config, now) {
        let st1 = close_spec(st, name, now).0;
        assert(st1.streams.dom() =~= st.streams.dom());
    }
}

/// In a file-backed stream's index, a read from any offset other than `-1`
/// and `now` starts at the first message whose offset does not sort before
/// it: message `i` is read exactly when its offset is at or after `from`.
pub proof fn lemma_index_read_from_offset(v: Seq<(nat, nat)>, from: Seq<char>, i: int)
    requires
        is_offset_text(from),
        from != start_text(),
        from != now_text(),
        v.len() <= u64::MAX,
        lens_total(v) <= u64::MAX,
        0 <= i < v.len(),
    ensures
        i >= index_read_start(v, from) <==> !text_lt(entry_offset(v, i), from),
        index_read_start(v, from) <= v.len(),
{
    assert(is_canonical_text(from));
    lemma_canonical_of_components(from);
    let (a, b) = components_of(from)->0;
    lemma_lens_total_take(v, i);
    lemma_canonical_order(i as u64, lens_total(v.take(i)) as u64, a, b);
}

} // verus!
