//! Cursors for long-poll and SSE responses.
//!
//! Cursors are decimal integers that increase monotonically. The upper bits
//! hold milliseconds since a custom epoch (2024-01-01T00:00:00Z); the lower
//! `SEQ_BITS` bits count values within one millisecond.

use crate::protocol::offset::Offset;
use crate::storage::current_time_millis;
use crate::text::{digits_value, is_digit, parse_u64_spec, push_char, unsigned_body, unsigned_value};
use core::sync::atomic::AtomicU64;
use vstd::prelude::*;

verus! {

/// Custom epoch: 2024-01-01T00:00:00Z in milliseconds since the Unix epoch.
pub const CUSTOM_EPOCH_MS: u64 = 1704067200000;

/// Number of bits reserved for the within-millisecond sequence.
pub const SEQ_BITS: u64 = 10;

/// Milliseconds since the custom epoch at wall-clock time `now_ms` (zero
/// before it).
pub open spec fn cursor_ticks(now_ms: i64) -> u64 {
    if now_ms <= CUSTOM_EPOCH_MS {
        0
    } else {
        (now_ms - CUSTOM_EPOCH_MS) as u64
    }
}

/// The smallest cursor value of the millisecond `now_ms`.
pub open spec fn cursor_base(now_ms: i64) -> u64 {
    cursor_ticks(now_ms) << 10u64
}

/// The cursor value that follows `last` at a millisecond whose smallest value
/// is `base`: `base` in a new millisecond, else one more than `last`.
pub open spec fn next_cursor(base: u64, last: u64) -> u64 {
    if base > last {
        base
    } else if last < u64::MAX {
        (last + 1) as u64
    } else {
        last
    }
}

/// The decimal digit of a value below 10.
pub open spec fn digit_char(d: nat) -> char {
    (d + 48) as char
}

/// The decimal text of `n`, without leading zeros.
pub open spec fn decimal_text(n: nat) -> Seq<char>
    decreases n,
{
    if n < 10 {
        seq![digit_char(n)]
    } else {
        decimal_text(n / 10).push(digit_char(n % 10))
    }
}

/// The smallest cursor value of millisecond `now_ms`.
pub fn cursor_base_at(now_ms: i64) -> (b: u64)
    ensures
        b == cursor_base(now_ms),
{
    let ticks: u64 = if now_ms <= 1704067200000i64 {
        0
    } else {
        (now_ms - 1704067200000i64) as u64
    };
    ticks << 10u64
}

/// The cursor value that follows `last` in a millisecond starting at `base`.
pub fn next_cursor_value(base: u64, last: u64) -> (v: u64)
    ensures
        v == next_cursor(base, last),
{
    if base > last {
        base
    } else if last < u64::MAX {
        last + 1
    } else {
        last
    }
}

/// The decimal text of `n`.
pub fn decimal_string(n: u128) -> (s: String)
    ensures
        s@ == decimal_text(n as nat),
{
    let mut digits: Vec<char> = Vec::new();
    let mut v = n;
    while v >= 10
        invariant
            decimal_text(n as nat) == decimal_text(v as nat) + digits@,
        decreases v,
    {
        let d: u8 = (v % 10) as u8;
        let c: char = (d + 48) as char;
        let ghost before = digits@;
        proof {
            assert(decimal_text(v as nat) == decimal_text((v / 10) as nat).push(c));
            assert(decimal_text((v / 10) as nat).push(c) + before =~= decimal_text(
                (v / 10) as nat,
            ) + (seq![c] + before));
        }
        digits.insert(0, c);
        assert(digits@ =~= seq![c] + before);
        v = v / 10;
    }
    let d = v as u8;
    let c = (d + 48) as char;
    digits.insert(0, c);
    let mut s = String::new();
    let mut i: usize = 0;
    while i < digits.len()
        invariant
            i <= digits@.len(),
            s@ == digits@.subrange(0, i as int),
        decreases digits.len() - i,
    {
        push_char(&mut s, digits[i]);
        assert(digits@.subrange(0, i + 1) =~= digits@.subrange(0, i as int).push(digits@[i as int]));
        i = i + 1;
    }
    assert(digits@.subrange(0, digits@.len() as int) =~= digits@);
    s
}

/// The decimal text of a number has at least one character, all of them
/// digits, and reads back as that number.
pub proof fn lemma_decimal_text(n: nat)
    ensures
        decimal_text(n).len() > 0,
        forall|i: int| 0 <= i < decimal_text(n).len() ==> #[trigger] is_digit(decimal_text(n)[i]),
        digits_value(decimal_text(n)) == n,
    decreases n,
{
    if n < 10 {
        let t = decimal_text(n);
        assert(t.drop_last() =~= Seq::<char>::empty());
        assert((digit_char(n) as nat) == n + 48);
        assert(digits_value(t) == digits_value(t.drop_last()) * 10 + ((t.last() as nat) - 48) as nat);
    } else {
        lemma_decimal_text(n / 10);
        let t = decimal_text(n);
        let p = decimal_text(n / 10);
        assert(t.drop_last() =~= p);
        assert(t.last() == digit_char(n % 10));
        assert(forall|i: int| 0 <= i < p.len() ==> t[i] == p[i]);
        assert((digit_char(n % 10) as nat) == n % 10 + 48);
        assert(digits_value(t) == digits_value(p) * 10 + n % 10);
        assert((n / 10) * 10 + n % 10 == n) by (nonlinear_arith);
    }
}

/// A cursor's text parses back, as an unsigned decimal integer, to the cursor
/// value itself.
pub proof fn lemma_cursor_text_roundtrip(n: u64)
    ensures
        parse_u64_spec(decimal_text(n as nat)) == Some(n),
        forall|i: int|
            0 <= i < decimal_text(n as nat).len() ==> #[trigger] is_digit(decimal_text(n as nat)[i]),
{
    lemma_decimal_text(n as nat);
    let t = decimal_text(n as nat);
    assert(is_digit(t[0]));
    assert(unsigned_body(t) == t);
    assert(unsigned_value(t) == Some(n as nat));
}

/// Each cursor is strictly greater than the one before it (as long as the
/// previous one is not already the largest `u64`), and never smaller than the
/// smallest value of the current millisecond.
pub proof fn lemma_cursor_increases(base: u64, last: u64)
    ensures
        last < u64::MAX ==> next_cursor(base, last) > last,
        next_cursor(base, last) >= base,
        next_cursor(base, last) >= last,
{
}

/// While fewer than 2^42 milliseconds have passed since the custom epoch and
/// the previous cursor is below 2^52, a cursor stays within JavaScript's
/// largest safe integer, 2^53 - 1.
pub proof fn lemma_cursor_fits_safe_integer(now_ms: i64, last: u64)
    requires
        cursor_ticks(now_ms) < 0x400_0000_0000u64,
        last < 0x10_0000_0000_0000u64,
    ensures
        next_cursor(cursor_base(now_ms), last) <= 0x1f_ffff_ffff_ffffu64,
{
    let t = cursor_ticks(now_ms);
    assert(t < 0x400_0000_0000u64 ==> t << 10u64 < 0x10_0000_0000_0000u64) by (bit_vector);
}

/// The cursor keeps the milliseconds since the custom epoch in its upper bits:
/// shifted right by `SEQ_BITS`, it is at least the current millisecond count.
pub proof fn lemma_cursor_encodes_time(now_ms: i64, last: u64)
    requires
        cursor_ticks(now_ms) < 0x40_0000_0000_0000u64,
    ensures
        next_cursor(cursor_base(now_ms), last) >> 10u64 >= cursor_ticks(now_ms),
{
    let t = cursor_ticks(now_ms);
    let v = next_cursor(cursor_base(now_ms), last);
    assert(v >= t << 10u64);
    assert(t < 0x40_0000_0000_0000u64 && v >= t << 10u64 ==> v >> 10u64 >= t) by (bit_vector);
}

/// The text of the cursor that follows `prev` at wall-clock time `now_ms`.
pub fn cursor_text(now_ms: i64, prev: u64) -> (cursor: String)
    ensures
        cursor@ == decimal_text(next_cursor(cursor_base(now_ms), prev) as nat),
{
    let base = cursor_base_at(now_ms);
    decimal_string(next_cursor_value(base, prev) as u128)
}

/// Moves `last` from the value `v` it holds to `next_cursor_value(base, v)` in
/// one atomic step (`AtomicU64::fetch_update`, which retries while other
/// threads race) and returns `v`. What `last` held depends on every other
/// caller, so nothing is stated of the result.
#[verifier::external_body]
fn advance_last(last: &AtomicU64, base: u64) -> (prev: u64) {
    let relaxed = core::sync::atomic::Ordering::Relaxed;
    match last.fetch_update(relaxed, relaxed, |v| Some(next_cursor_value(base, v))) {
        Ok(v) => v,
        Err(v) => v,
    }
}

/// Generates the next cursor: a decimal string, strictly greater than every
/// cursor generated before from the same `last`, that encodes wall-clock time.
///
/// `last` holds the most recent value; the server keeps one for the whole
/// process. The offset parameter is accepted for API compatibility; the cursor
/// does not depend on it.
/// A system clock that reads before the Unix epoch counts as the epoch, as
/// any time before the cursor epoch counts as its start.
pub fn generate(last: &AtomicU64, _next_offset: &Offset) -> (cursor: String)
    ensures
        exists|now_ms: i64, prev: u64|
            cursor@ == decimal_text(next_cursor(cursor_base(now_ms), prev) as nat),
{
    let now_ms: i64 = match current_time_millis() {
        Some(t) => t,
        None => 0,
    };
    let base = cursor_base_at(now_ms);
    let prev = advance_last(last, base);
    cursor_text(now_ms, prev)
}

} // verus!
