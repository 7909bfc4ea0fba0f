//! The in-memory index of a file-backed stream: where each record's payload
//! lies in the log, and the offset of each message.

use crate::protocol::offset::{canonical_text, components_of, now_text, start_text, Offset};
use crate::storage::records::{
    encode_log, fits_records, lemma_scan_records, record_spans, scan_from, scan_log, spans_view,
};
use vstd::prelude::*;

verus! {

/// One indexed message.
#[derive(Debug)]
pub struct IndexEntry {
    /// The message's offset.
    pub offset: Offset,
    /// Position of the payload in the log.
    pub file_pos: u64,
    /// Length of the payload.
    pub byte_len: u64,
}

/// The sum of the payload lengths of `v`'s (position, length) pairs.
pub open spec fn lens_total(v: Seq<(nat, nat)>) -> nat
    decreases v.len(),
{
    if v.len() == 0 {
        0
    } else {
        v[0].1 + lens_total(v.drop_first())
    }
}

/// Adding a record adds its length.
pub proof fn lemma_lens_total_push(v: Seq<(nat, nat)>, x: (nat, nat))
    ensures
        lens_total(v.push(x)) == lens_total(v) + x.1,
    decreases v.len(),
{
    if v.len() > 0 {
        lemma_lens_total_push(v.drop_first(), x);
        assert(v.push(x).drop_first() =~= v.drop_first().push(x));
        assert(v.push(x)[0] == v[0]);
    } else {
        assert(v.push(x).drop_first() =~= Seq::<(nat, nat)>::empty());
        assert(v.push(x)[0] == x);
        assert(lens_total(Seq::<(nat, nat)>::empty()) == 0);
    }
}

/// The offset of message `i` of a log with records `v`.
pub open spec fn entry_offset(v: Seq<(nat, nat)>, i: int) -> Seq<char> {
    canonical_text(i as u64, lens_total(v.take(i)) as u64)
}

/// The index of a stream's log.
pub struct LogIndex {
    entries: Vec<IndexEntry>,
    next_read_seq: u64,
    next_byte_offset: u64,
}

impl View for LogIndex {
    type V = Seq<(nat, nat)>;

    /// The (payload position, payload length) of each record, in order.
    closed spec fn view(&self) -> Seq<(nat, nat)> {
        self.entries@.map_values(|e: IndexEntry| (e.file_pos as nat, e.byte_len as nat))
    }
}

/// The message index where a read from offset text `from` starts: the tail
/// for `now`, the first message for `-1`, else the first message whose offset
/// is at or after `from`.
pub open spec fn index_read_start(v: Seq<(nat, nat)>, from: Seq<char>) -> nat {
    if from == now_text() {
        v.len()
    } else if from == start_text() {
        0
    } else {
        let (a, b) = components_of(from)->0;
        if a >= v.len() {
            v.len()
        } else if lens_total(v.take(a as int)) < b {
            (a + 1) as nat
        } else {
            a as nat
        }
    }
}

/// The (payload position, payload length) pairs of a batch of payloads of
/// lengths `sizes` appended at log position `base`.
pub open spec fn batch_spans(sizes: Seq<u64>, base: nat) -> Seq<(nat, nat)>
    decreases sizes.len(),
{
    if sizes.len() == 0 {
        seq![]
    } else {
        seq![((base + 4) as nat, sizes[0] as nat)] + batch_spans(
            sizes.drop_first(),
            (base + 4 + sizes[0]) as nat,
        )
    }
}

/// The sum of `sizes`.
pub open spec fn sizes_total(sizes: Seq<u64>) -> nat
    decreases sizes.len(),
{
    if sizes.len() == 0 {
        0
    } else {
        sizes[0] as nat + sizes_total(sizes.drop_first())
    }
}

impl LogIndex {
    /// The index's internal consistency: message `i` has offset `(i, bytes
    /// before it)`, and the counters hold the message count and byte total.
    pub closed spec fn wf(&self) -> bool {
        &&& self.next_read_seq == self.entries@.len()
        &&& self.next_byte_offset == lens_total(self@)
        &&& forall|i: int|
            0 <= i < self.entries@.len() ==> #[trigger] self.entries@[i].offset@ == entry_offset(
                self@,
                i,
            )
    }

    /// An empty index.
    pub fn new() -> (idx: LogIndex)
        ensures
            idx.wf(),
            idx@ == Seq::<(nat, nat)>::empty(),
    {
        let idx = LogIndex { entries: Vec::new(), next_read_seq: 0, next_byte_offset: 0 };
        assert(idx@ =~= Seq::<(nat, nat)>::empty());
        idx
    }

    proof fn lemma_take_push(v: Seq<(nat, nat)>, x: (nat, nat), i: int)
        requires
            0 <= i <= v.len(),
        ensures
            v.push(x).take(i) == v.take(i),
    {
        assert(v.push(x).take(i) =~= v.take(i));
    }

    /// Adds the record of one payload at log position `file_pos`.
    fn push_entry(&mut self, file_pos: u64, byte_len: u64)
        requires
            old(self).wf(),
            old(self).next_read_seq < u64::MAX,
            old(self).next_byte_offset + byte_len <= u64::MAX,
        ensures
            final(self).wf(),
            final(self)@ == old(self)@.push((file_pos as nat, byte_len as nat)),
    {
        let ghost v0 = self@;
        let offset = Offset::new(self.next_read_seq, self.next_byte_offset);
        self.entries.push(IndexEntry { offset, file_pos, byte_len });
        self.next_read_seq = self.next_read_seq + 1;
        self.next_byte_offset = self.next_byte_offset + byte_len;
        let ghost x = (file_pos as nat, byte_len as nat);
        assert(self@ =~= v0.push(x));
        proof {
            lemma_lens_total_push(v0, x);
            assert forall|i: int| 0 <= i < self.entries@.len() implies #[trigger] self.entries@[
                i
            ].offset@ == entry_offset(self@, i) by {
                Self::lemma_take_push(v0, x, i);
                if i == v0.len() {
                    assert(v0.push(x).take(i) =~= v0);
                }
            }
        }
    }

    /// Rebuilds the index of a log read from disk: every complete record, in
    /// order, and the length of the log that they fill (a torn tail after it
    /// is to be cut off).
    pub fn rebuild(log: &[u8]) -> (r: (LogIndex, u64))
        ensures
            r.0.wf(),
            r.0@ == scan_from(log@, 0).0,
            r.1 == scan_from(log@, 0).1,
    {
        let (spans, valid_len) = scan_log(log);
        proof {
            lemma_scan_bounds(log@, 0);
        }
        let mut idx = LogIndex::new();
        let log_len: usize = log.len();
        let mut i: usize = 0;
        while i < spans.len()
            invariant
                log@.len() == log_len,
                i <= spans@.len(),
                idx.wf(),
                idx@ == spans_view(spans@).take(i as int),
                spans_view(spans@) == scan_from(log@, 0).0,
                lens_total(spans_view(spans@)) + 4 * spans@.len() <= log@.len(),
            decreases spans.len() - i,
        {
            let (pos, len) = spans[i];
            proof {
                let sv = spans_view(spans@);
                assert(sv[i as int] == (pos as nat, len as nat));
                lemma_lens_total_take(sv, i as int + 1);
                lemma_lens_total_push(sv.take(i as int), sv[i as int]);
                assert(sv.take(i + 1) =~= sv.take(i as int).push(sv[i as int]));
            }
            idx.push_entry(pos, len);
            assert(idx@ =~= spans_view(spans@).take(i + 1));
            i = i + 1;
        }
        assert(spans_view(spans@).take(spans@.len() as int) =~= spans_view(spans@));
        (idx, valid_len)
    }

    /// Adds the records of a batch of payloads of lengths `sizes`, written at
    /// log position `before_len`.
    pub fn push_batch(&mut self, before_len: u64, sizes: &[u64])
        requires
            old(self).wf(),
            old(self)@.len() + sizes@.len() <= u64::MAX,
            lens_total(old(self)@) + sizes_total(sizes@) <= u64::MAX,
            before_len + 4 * sizes@.len() + sizes_total(sizes@) <= u64::MAX,
        ensures
            final(self).wf(),
            final(self)@ == old(self)@ + batch_spans(sizes@, before_len as nat),
    {
        let ghost v0 = self@;
        let mut cursor = before_len;
        let mut k: usize = 0;
        assert(sizes@.skip(0) =~= sizes@);
        while k < sizes.len()
            invariant
                k <= sizes@.len(),
                self.wf(),
                self@ + batch_spans(sizes@.skip(k as int), cursor as nat) == v0 + batch_spans(
                    sizes@,
                    before_len as nat,
                ),
                self.next_read_seq + (sizes@.len() - k) <= u64::MAX,
                self.next_byte_offset + sizes_total(sizes@.skip(k as int)) <= u64::MAX,
                cursor + 4 * (sizes@.len() - k) + sizes_total(sizes@.skip(k as int)) <= u64::MAX,
            decreases sizes.len() - k,
        {
            let len = sizes[k];
            let ghost rest = sizes@.skip(k as int);
            assert(rest[0] == len);
            assert(rest.drop_first() =~= sizes@.skip(k + 1));
            let ghost before = self@;
            assert(sizes_total(rest) == len + sizes_total(rest.drop_first()));
            self.push_entry(cursor + 4, len);
            proof {
                lemma_lens_total_push(before, ((cursor + 4) as nat, len as nat));
                assert(batch_spans(rest, cursor as nat) == seq![((cursor + 4) as nat, len as nat)]
                    + batch_spans(rest.drop_first(), (cursor + 4 + len) as nat));
                assert(before + batch_spans(rest, cursor as nat) =~= before.push(
                    ((cursor + 4) as nat, len as nat),
                ) + batch_spans(rest.drop_first(), (cursor + 4 + len) as nat));
            }
            cursor = cursor + 4 + len;
            k = k + 1;
        }
        assert(sizes@.skip(sizes@.len() as int) =~= Seq::<u64>::empty());
        assert(self@ + Seq::<(nat, nat)>::empty() =~= self@);
    }

    /// The offset the next message will get.
    pub fn next_offset(&self) -> (o: Offset)
        requires
            self.wf(),
        ensures
            o@ == canonical_text(self@.len() as u64, lens_total(self@) as u64),
    {
        Offset::new(self.next_read_seq, self.next_byte_offset)
    }

    /// The number of messages.
    pub fn message_count(&self) -> (n: u64)
        requires
            self.wf(),
        ensures
            n == self@.len(),
    {
        self.next_read_seq
    }

    /// The number of payload bytes.
    pub fn total_bytes(&self) -> (n: u64)
        requires
            self.wf(),
        ensures
            n == lens_total(self@),
    {
        self.next_byte_offset
    }

    /// The number of entries.
    pub fn len(&self) -> (n: usize)
        ensures
            n == self@.len(),
    {
        self.entries.len()
    }

    /// Entry `i`: its offset, payload position and payload length.
    pub fn entry(&self, i: usize) -> (e: &IndexEntry)
        requires
            self.wf(),
            i < self@.len(),
        ensures
            e.offset@ == entry_offset(self@, i as int),
            e.file_pos == self@[i as int].0,
            e.byte_len == self@[i as int].1,
    {
        &self.entries[i]
    }

    /// The index of the first message a read from `from` returns.
    pub fn start_index(&self, from: &Offset) -> (i: usize)
        requires
            self.wf(),
        ensures
            i == index_read_start(self@, from@),
    {
        if from.is_now() {
            return self.entries.len();
        }
        if from.is_start() {
            return 0;
        }
        let (a, b) = match from.parse_components() {
            Some(p) => p,
            None => {
                return 0;
            },
        };
        let n = self.entries.len();
        if a >= n as u64 {
            return n;
        }
        let ai = a as usize;
        assert(ai == a && ai < n);
        proof {
            lemma_lens_total_take(self@, ai as int);
        }
        let known = self.entries[ai].offset.parse_components();
        proof {
            crate::protocol::offset::lemma_components_roundtrip(a, lens_total(self@.take(ai as int)) as u64);
        }
        let prefix = match known {
            Some(p) => p.1,
            None => 0,
        };
        if prefix < b {
            ai + 1
        } else {
            ai
        }
    }
}

/// A prefix never holds more bytes than the whole.
pub proof fn lemma_lens_total_take(v: Seq<(nat, nat)>, i: int)
    requires
        0 <= i <= v.len(),
    ensures
        lens_total(v.take(i)) <= lens_total(v),
    decreases i,
{
    if i > 0 {
        lemma_lens_total_take(v, i - 1);
        lemma_lens_total_push(v.take(i - 1), v[i - 1]);
        assert(v.take(i) =~= v.take(i - 1).push(v[i - 1]));
    }
    lemma_lens_total_prefix_le(v, i);
}

proof fn lemma_lens_total_prefix_le(v: Seq<(nat, nat)>, i: int)
    requires
        0 <= i <= v.len(),
    ensures
        lens_total(v.take(i)) <= lens_total(v),
    decreases v.len(),
{
    if i == v.len() {
        assert(v.take(i) =~= v);
    } else if i == 0 {
        assert(v.take(0) =~= Seq::<(nat, nat)>::empty());
    } else {
        lemma_lens_total_prefix_le(v.drop_first(), i - 1);
        assert(v.take(i).drop_first() =~= v.drop_first().take(i - 1));
        assert(v.take(i)[0] == v[0]);
    }
}

/// The records found by a scan from `c` fill the log from `c` to where the
/// scan stops: their payloads and headers together.
pub proof fn lemma_scan_bounds(log: Seq<u8>, c: nat)
    ensures
        c <= scan_from(log, c).1,
        scan_from(log, c).1 <= log.len() || scan_from(log, c).1 == c,
        lens_total(scan_from(log, c).0) + 4 * scan_from(log, c).0.len() == scan_from(log, c).1 - c,
    decreases log.len() - c,
{
    if c + 4 > log.len() {
    } else {
        let len = crate::storage::records::le32_value(log.subrange(c as int, c + 4int));
        let end = c + 4 + len;
        if end > log.len() {
        } else {
            lemma_scan_bounds(log, end);
            let rest = scan_from(log, end);
            let sp = seq![((c + 4) as nat, len)] + rest.0;
            assert(sp.drop_first() =~= rest.0);
        }
    }
}

/// Once the scan of `log` from `c` reaches the end of `log`, scanning `log`
/// with more bytes after it finds the same records, then goes on from there.
pub proof fn lemma_scan_extend(log: Seq<u8>, rest: Seq<u8>, c: nat)
    requires
        c <= log.len(),
        scan_from(log, c).1 == log.len(),
    ensures
        scan_from(log + rest, c) == (
            scan_from(log, c).0 + scan_from(log + rest, log.len()).0,
            scan_from(log + rest, log.len()).1,
        ),
    decreases log.len() - c,
{
    let full = log + rest;
    if c == log.len() {
        assert(scan_from(log, c).0 =~= Seq::<(nat, nat)>::empty()) by {
            assert(c + 4 > log.len());
        }
        assert(scan_from(log, c).0 + scan_from(full, log.len()).0 =~= scan_from(full, log.len()).0);
    } else {
        assert(c + 4 <= log.len());
        let h = log.subrange(c as int, c + 4int);
        assert(full.subrange(c as int, c + 4int) =~= h);
        let len = crate::storage::records::le32_value(h);
        let end = c + 4 + len;
        assert(end <= log.len());
        lemma_scan_extend(log, rest, end);
        let r = scan_from(log, end);
        assert(seq![((c + 4) as nat, len)] + r.0 + scan_from(full, log.len()).0 =~= seq![
            ((c + 4) as nat,
            len),
        ] + (r.0 + scan_from(full, log.len()).0));
    }
}

/// The length of each payload, as stored in the record headers.
pub open spec fn payload_sizes(ms: Seq<Seq<u8>>) -> Seq<u64> {
    ms.map_values(|m: Seq<u8>| m.len() as u64)
}

/// The spans computed from the payload sizes are the records' spans.
pub proof fn lemma_batch_spans_records(ms: Seq<Seq<u8>>, base: nat)
    requires
        fits_records(ms),
    ensures
        batch_spans(payload_sizes(ms), base) == record_spans(ms, base),
    decreases ms.len(),
{
    if ms.len() > 0 {
        let rest = ms.drop_first();
        assert(ms[0].len() <= u32::MAX);
        assert forall|i: int| 0 <= i < rest.len() implies #[trigger] rest[i].len() <= u32::MAX by {
            assert(rest[i] == ms[i + 1]);
        }
        lemma_batch_spans_records(rest, base + 4 + ms[0].len());
        assert(payload_sizes(ms).drop_first() =~= payload_sizes(rest));
    }
}

/// Appending a batch to a log whose records are all complete: a restart, which
/// scans the whole log again, finds the records it had before followed by the
/// batch's records at the positions the index gives them while appending
/// (`push_batch` at the old log length), and no torn tail.
pub proof fn lemma_index_matches_restart(log: Seq<u8>, ms: Seq<Seq<u8>>)
    requires
        scan_from(log, 0).1 == log.len(),
        fits_records(ms),
    ensures
        scan_from(log + encode_log(ms), 0) == (
            scan_from(log, 0).0 + batch_spans(payload_sizes(ms), log.len()),
            log.len() + encode_log(ms).len(),
        ),
{
    lemma_scan_extend(log, encode_log(ms), 0);
    lemma_scan_records(log, ms, Seq::<u8>::empty());
    assert(log + encode_log(ms) + Seq::<u8>::empty() =~= log + encode_log(ms));
    lemma_batch_spans_records(ms, log.len());
}

/// In a file-backed stream's index, offsets strictly increase: an earlier
/// message's offset sorts before a later one's, and before the next offset.
pub proof fn lemma_index_offsets_increase(v: Seq<(nat, nat)>, i: int, j: int)
    requires
        0 <= i < j <= v.len(),
        v.len() <= u64::MAX,
        lens_total(v) <= u64::MAX,
    ensures
        crate::protocol::offset::text_lt(entry_offset(v, i), entry_offset(v, j)),
{
    lemma_lens_total_take(v.take(j), i);
    assert(v.take(j).take(i) =~= v.take(i));
    lemma_lens_total_take(v, j);
    crate::protocol::offset::lemma_canonical_order(
        i as u64,
        lens_total(v.take(i)) as u64,
        j as u64,
        lens_total(v.take(j)) as u64,
    );
}

} // verus!
