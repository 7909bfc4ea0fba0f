//! The append-only log of a file-backed stream.
//!
//! Each record is a little-endian `u32` payload length followed by the
//! payload. A crash can leave the last record torn; scanning the log on
//! start-up keeps every complete record and reports where the torn tail
//! begins, so that it can be cut off.

use crate::protocol::error::{Error, ErrorView};
use vstd::prelude::*;

verus! {

/// Bytes of the length header in front of every record.
pub const RECORD_HEADER_BYTES: u64 = 4;

/// The four little-endian bytes of `n`.
pub open spec fn le32(n: nat) -> Seq<u8> {
    seq![
        (n % 256) as u8,
        ((n / 256) % 256) as u8,
        ((n / 65536) % 256) as u8,
        ((n / 16777216) % 256) as u8,
    ]
}

/// The number four little-endian bytes stand for.
pub open spec fn le32_value(b: Seq<u8>) -> nat {
    b[0] as nat + 256 * (b[1] as nat) + 65536 * (b[2] as nat) + 16777216 * (b[3] as nat)
}

/// One record: the payload's length, then the payload.
pub open spec fn encode_record(m: Seq<u8>) -> Seq<u8> {
    le32(m.len()) + m
}

/// The records of `ms`, one after another.
pub open spec fn encode_log(ms: Seq<Seq<u8>>) -> Seq<u8>
    decreases ms.len(),
{
    if ms.len() == 0 {
        seq![]
    } else {
        encode_record(ms[0]) + encode_log(ms.drop_first())
    }
}

/// Whether every payload's length fits in the `u32` header.
pub open spec fn fits_records(ms: Seq<Seq<u8>>) -> bool {
    forall|i: int| 0 <= i < ms.len() ==> #[trigger] ms[i].len() <= u32::MAX
}

/// The error for a payload too long for the record format.
pub open spec fn record_too_large() -> ErrorView {
    ErrorView::InvalidHeader {
        header: "Content-Length"@,
        reason: "message too large for file record format"@,
    }
}

/// Scanning the log from position `c`: the complete records found, as
/// (payload position, payload length), and the position where the complete
/// records end.
pub open spec fn scan_from(log: Seq<u8>, c: nat) -> (Seq<(nat, nat)>, nat)
    decreases log.len() - c,
{
    if c + 4 > log.len() {
        (seq![], c)
    } else {
        let len = le32_value(log.subrange(c as int, c + 4int));
        let end = c + 4 + len;
        if end > log.len() {
            (seq![], c)
        } else {
            let rest = scan_from(log, end);
            (seq![((c + 4) as nat, len)] + rest.0, rest.1)
        }
    }
}

/// The (payload position, payload length) of each record of `ms` when the
/// records start at position `base`.
pub open spec fn record_spans(ms: Seq<Seq<u8>>, base: nat) -> Seq<(nat, nat)>
    decreases ms.len(),
{
    if ms.len() == 0 {
        seq![]
    } else {
        seq![((base + 4) as nat, ms[0].len())] + record_spans(
            ms.drop_first(),
            base + 4 + ms[0].len(),
        )
    }
}

/// Whether `junk` is no complete record: too short for a header, or shorter
/// than the payload its header announces. A write cut short leaves such a tail.
pub open spec fn is_torn(junk: Seq<u8>) -> bool {
    junk.len() < 4 || junk.len() < 4 + le32_value(junk.subrange(0, 4))
}

/// Decoding the header of a length gives the length back.
pub proof fn lemma_le32_roundtrip(n: nat)
    requires
        n <= u32::MAX,
    ensures
        le32_value(le32(n)) == n,
        le32(n).len() == 4,
{
    let x = n as u64;
    assert(x < 0x1_0000_0000u64 ==> ((x % 256) as u8) as u64 + 256 * (((x / 256) % 256) as u8) as u64
        + 65536 * (((x / 65536) % 256) as u8) as u64 + 16777216 * (((x / 16777216) % 256) as u8) as u64
        == x) by (bit_vector);
}

/// Scanning a log made of the records of `ms`, behind any prefix and in front
/// of a torn tail, finds exactly those records, and the complete records end
/// where the torn tail begins.
pub proof fn lemma_scan_records(p: Seq<u8>, ms: Seq<Seq<u8>>, junk: Seq<u8>)
    requires
        fits_records(ms),
        is_torn(junk),
    ensures
        scan_from(p + encode_log(ms) + junk, p.len()) == (
            record_spans(ms, p.len()),
            p.len() + encode_log(ms).len(),
        ),
    decreases ms.len(),
{
    let log = p + encode_log(ms) + junk;
    if ms.len() == 0 {
        assert(encode_log(ms) =~= seq![]);
        assert(log =~= p + junk);
        if junk.len() >= 4 {
            assert(log.subrange(p.len() as int, p.len() + 4int) =~= junk.subrange(0, 4));
        }
    } else {
        let m = ms[0];
        let rest = ms.drop_first();
        assert(m.len() <= u32::MAX);
        lemma_le32_roundtrip(m.len());
        let p2 = p + encode_record(m);
        assert(log =~= p2 + encode_log(rest) + junk);
        assert(log.subrange(p.len() as int, p.len() + 4int) =~= le32(m.len()));
        assert forall|i: int| 0 <= i < rest.len() implies #[trigger] rest[i].len() <= u32::MAX by {
            assert(rest[i] == ms[i + 1]);
        }
        lemma_scan_records(p2, rest, junk);
    }
}

/// Recovering a log that holds the records of `ms` followed by the first `k`
/// bytes of one more record, cut short by a crash: the scan finds exactly the
/// records of `ms`, at their positions, and the log is cut back to their end.
pub proof fn lemma_recover_torn_log(ms: Seq<Seq<u8>>, m: Seq<u8>, k: nat)
    requires
        fits_records(ms),
        m.len() <= u32::MAX,
        k < encode_record(m).len(),
    ensures
        scan_from(encode_log(ms) + encode_record(m).take(k as int), 0) == (
            record_spans(ms, 0),
            encode_log(ms).len(),
        ),
{
    let junk = encode_record(m).take(k as int);
    lemma_le32_roundtrip(m.len());
    if junk.len() >= 4 {
        assert(junk.subrange(0, 4) =~= le32(m.len()));
    }
    lemma_scan_records(seq![], ms, junk);
    assert(Seq::<u8>::empty() + encode_log(ms) + junk =~= encode_log(ms) + junk);
}

/// Appending a record to a log appends its encoding.
pub proof fn lemma_encode_log_push(ms: Seq<Seq<u8>>, m: Seq<u8>)
    ensures
        encode_log(ms.push(m)) == encode_log(ms) + encode_record(m),
    decreases ms.len(),
{
    if ms.len() == 0 {
        assert(ms.push(m).drop_first() =~= Seq::<Seq<u8>>::empty());
        assert(encode_log(Seq::<Seq<u8>>::empty()) =~= seq![]);
        assert(encode_log(ms.push(m)) =~= encode_record(m) + encode_log(
            Seq::<Seq<u8>>::empty(),
        ));
        assert(encode_log(ms) =~= seq![]);
    } else {
        lemma_encode_log_push(ms.drop_first(), m);
        assert(ms.push(m).drop_first() =~= ms.drop_first().push(m));
        assert(ms.push(m)[0] == ms[0]);
    }
}

/// The bytes of each payload.
pub open spec fn payloads(messages: Seq<Vec<u8>>) -> Seq<Seq<u8>> {
    messages.map_values(|m: Vec<u8>| m@)
}

/// Frames a batch of payloads as records, ready to be appended to the log.
/// A payload too long for the `u32` header refuses the whole batch.
pub fn encode_records(messages: &[Vec<u8>]) -> (r: Result<Vec<u8>, Error>)
    ensures
        match r {
            Ok(buf) => fits_records(payloads(messages@)) && buf@ == encode_log(payloads(messages@)),
            Err(e) => !fits_records(payloads(messages@)) && e@ == record_too_large(),
        },
{
    let ghost ps = payloads(messages@);
    let mut i: usize = 0;
    while i < messages.len()
        invariant
            i <= messages@.len(),
            ps == payloads(messages@),
            forall|j: int| 0 <= j < i ==> #[trigger] ps[j].len() <= u32::MAX,
        decreases messages.len() - i,
    {
        if messages[i].len() > 0xffff_ffffusize {
            assert(ps[i as int].len() > u32::MAX);
            return Err(
                Error::InvalidHeader {
                    header: "Content-Length".to_owned(),
                    reason: "message too large for file record format".to_owned(),
                },
            );
        }
        i = i + 1;
    }
    let mut buf: Vec<u8> = Vec::new();
    let mut k: usize = 0;
    while k < messages.len()
        invariant
            k <= messages@.len(),
            ps == payloads(messages@),
            fits_records(ps),
            buf@ == encode_log(ps.take(k as int)),
        decreases messages.len() - k,
    {
        let m = &messages[k];
        assert(m@ == ps[k as int]);
        let n: u64 = m.len() as u64;
        let ghost before = buf@;
        buf.push((n % 256) as u8);
        buf.push(((n / 256) % 256) as u8);
        buf.push(((n / 65536) % 256) as u8);
        buf.push(((n / 16777216) % 256) as u8);
        assert(buf@ =~= before + le32(m@.len()));
        let mut j: usize = 0;
        while j < m.len()
            invariant
                j <= m@.len(),
                buf@ == before + le32(m@.len()) + m@.subrange(0, j as int),
            decreases m.len() - j,
        {
            buf.push(m[j]);
            assert(m@.subrange(0, j + 1) =~= m@.subrange(0, j as int).push(m@[j as int]));
            j = j + 1;
        }
        assert(m@.subrange(0, m@.len() as int) =~= m@);
        proof {
            lemma_encode_log_push(ps.take(k as int), ps[k as int]);
            assert(ps.take(k + 1) =~= ps.take(k as int).push(ps[k as int]));
        }
        assert(buf@ =~= encode_log(ps.take(k + 1)));
        k = k + 1;
    }
    assert(ps.take(messages@.len() as int) =~= ps);
    Ok(buf)
}

/// The spans of a scan, as numbers.
pub open spec fn spans_view(v: Seq<(u64, u64)>) -> Seq<(nat, nat)> {
    v.map_values(|p: (u64, u64)| (p.0 as nat, p.1 as nat))
}

/// Scans a stream's log: every complete record, as (payload position,
/// payload length), and the length of the log that those records fill. Bytes
/// after that length are a torn record to cut off.
pub fn scan_log(log: &[u8]) -> (r: (Vec<(u64, u64)>, u64))
    ensures
        spans_view(r.0@) == scan_from(log@, 0).0,
        r.1 == scan_from(log@, 0).1,
{
    let n: u64 = log.len() as u64;
    let mut spans: Vec<(u64, u64)> = Vec::new();
    let mut c: u64 = 0;
    let mut stop = false;
    while !stop
        invariant
            c <= n,
            n == log@.len(),
            scan_from(log@, 0) == (
                spans_view(spans@) + scan_from(log@, c as nat).0,
                scan_from(log@, c as nat).1,
            ),
            stop ==> scan_from(log@, c as nat) == (Seq::<(nat, nat)>::empty(), c as nat),
        decreases n - c + (if stop {
            0int
        } else {
            1int
        }),
    {
        if n - c < 4 {
            stop = true;
        } else {
            let i = c as usize;
            let len: u64 = log[i] as u64 + 256 * (log[i + 1] as u64) + 65536 * (log[i + 2] as u64)
                + 16777216 * (log[i + 3] as u64);
            proof {
                let h = log@.subrange(c as int, c + 4int);
                assert(h[0] == log@[i as int] && h[1] == log@[i + 1] && h[2] == log@[i + 2] && h[3]
                    == log@[i + 3]);
                assert(len == le32_value(h));
            }
            if n - c - 4 < len {
                stop = true;
            } else {
                let ghost old_spans = spans@;
                let end = c + 4 + len;
                spans.push((c + 4, len));
                proof {
                    let rest = scan_from(log@, end as nat);
                    assert(scan_from(log@, c as nat) == (
                        seq![((c + 4) as nat, len as nat)] + rest.0,
                        rest.1,
                    ));
                    assert(spans_view(spans@) =~= spans_view(old_spans).push(
                        ((c + 4) as nat, len as nat),
                    ));
                    assert(spans_view(old_spans) + (seq![((c + 4) as nat, len as nat)] + rest.0)
                        =~= spans_view(spans@) + rest.0);
                }
                c = end;
            }
        }
    }
    assert(spans_view(spans@) + Seq::<(nat, nat)>::empty() =~= spans_view(spans@));
    (spans, c)
}

} // verus!
