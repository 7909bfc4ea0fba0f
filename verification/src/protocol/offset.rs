//! Stream offsets.
//!
//! An offset is `{read_seq:016x}_{byte_offset:016x}` (zero-padded lowercase
//! hex) or one of the sentinels `-1` (stream start) and `now` (tail).

use crate::protocol::error::{Error, ErrorView};
use crate::text::{chars_of, push_char};
use vstd::arithmetic::div_mod::*;
use vstd::arithmetic::power::*;
use vstd::prelude::*;

verus! {

/// The characters of the start sentinel `-1`.
pub open spec fn start_text() -> Seq<char> {
    seq!['-', '1']
}

/// The characters of the tail sentinel `now`.
pub open spec fn now_text() -> Seq<char> {
    seq!['n', 'o', 'w']
}

/// A lowercase hexadecimal digit.
pub open spec fn is_lower_hex(c: char) -> bool {
    ('0' <= c && c <= '9') || ('a' <= c && c <= 'f')
}

/// The digit character for a value below 16.
pub open spec fn hex_char(d: nat) -> char
    recommends
        d < 16,
{
    if d < 10 {
        (d + 48) as char
    } else {
        (d + 87) as char
    }
}

/// The value of a lowercase hexadecimal digit.
pub open spec fn hex_val(c: char) -> nat {
    if c <= '9' {
        (c as nat - 48) as nat
    } else {
        (c as nat - 87) as nat
    }
}

/// The last `k` hexadecimal digits of `n`, most significant first.
pub open spec fn hex_digits(n: nat, k: nat) -> Seq<char>
    decreases k,
{
    if k == 0 {
        seq![]
    } else {
        hex_digits(n / 16, (k - 1) as nat).push(hex_char(n % 16))
    }
}

/// The number that a string of hexadecimal digits denotes.
pub open spec fn hex_value(s: Seq<char>) -> nat
    decreases s.len(),
{
    if s.len() == 0 {
        0
    } else {
        hex_value(s.drop_last()) * 16 + hex_val(s.last())
    }
}

/// Every character of `s` is a lowercase hexadecimal digit.
pub open spec fn all_lower_hex(s: Seq<char>) -> bool {
    forall|i: int| 0 <= i < s.len() ==> #[trigger] is_lower_hex(s[i])
}

/// The canonical text of the offset `(read_seq, byte_offset)`.
pub open spec fn canonical_text(read_seq: u64, byte_offset: u64) -> Seq<char> {
    hex_digits(read_seq as nat, 16) + seq!['_'] + hex_digits(byte_offset as nat, 16)
}

/// `s` is sixteen lowercase hex digits, `_`, and sixteen more.
pub open spec fn is_canonical_text(s: Seq<char>) -> bool {
    &&& s.len() == 33
    &&& s[16] == '_'
    &&& all_lower_hex(s.subrange(0, 16))
    &&& all_lower_hex(s.subrange(17, 33))
}

/// The texts that `Offset` accepts: the two sentinels and the canonical form.
pub open spec fn is_offset_text(s: Seq<char>) -> bool {
    s == start_text() || s == now_text() || is_canonical_text(s)
}

/// The `(read_seq, byte_offset)` pair that a canonical text denotes.
pub open spec fn text_components(s: Seq<char>) -> (nat, nat) {
    (hex_value(s.subrange(0, 16)), hex_value(s.subrange(17, 33)))
}

/// The components that `parse_components` reports for an offset text:
/// none for a sentinel, the two hex values otherwise.
pub open spec fn components_of(s: Seq<char>) -> Option<(u64, u64)> {
    if s == start_text() || s == now_text() {
        None
    } else {
        Some((text_components(s).0 as u64, text_components(s).1 as u64))
    }
}

pub proof fn lemma_hex_char(d: nat)
    requires
        d < 16,
    ensures
        is_lower_hex(hex_char(d)),
        hex_val(hex_char(d)) == d,
{
}

pub proof fn lemma_hex_digits(n: nat, k: nat)
    ensures
        hex_digits(n, k).len() == k,
        all_lower_hex(hex_digits(n, k)),
        hex_value(hex_digits(n, k)) == n % (pow(16, k) as nat),
    decreases k,
{
    reveal(pow);
    if k == 0 {
        assert(n % 1 == 0);
    } else {
        let km1 = (k - 1) as nat;
        lemma_hex_digits(n / 16, km1);
        lemma_hex_char(n % 16);
        let d = hex_digits(n, k);
        assert(d.drop_last() == hex_digits(n / 16, km1));
        lemma_pow_positive(16, km1);
        lemma_breakdown(n as int, 16, pow(16, km1));
        assert(all_lower_hex(d)) by {
            assert forall|i: int| 0 <= i < d.len() implies #[trigger] is_lower_hex(d[i]) by {
                if i < km1 {
                    assert(d[i] == hex_digits(n / 16, km1)[i]);
                }
            }
        }
    }
}

/// A string of hexadecimal digits longer than its value needs keeps its value
/// below `16^len`.
pub proof fn lemma_hex_value_bound(s: Seq<char>)
    requires
        all_lower_hex(s),
    ensures
        hex_value(s) < pow(16, s.len()),
    decreases s.len(),
{
    reveal(pow);
    if s.len() > 0 {
        let t = s.drop_last();
        assert(all_lower_hex(t)) by {
            assert forall|i: int| 0 <= i < t.len() implies #[trigger] is_lower_hex(t[i]) by {
                assert(is_lower_hex(s[i]));
            }
        }
        lemma_hex_value_bound(t);
        assert(is_lower_hex(s[s.len() - 1]));
        assert(hex_val(s.last()) < 16);
        let p = pow(16, t.len());
        assert(hex_value(t) * 16 + hex_val(s.last()) < p * 16) by (nonlinear_arith)
            requires
                hex_value(t) < p,
                hex_val(s.last()) < 16,
        ;
    }
}

pub proof fn lemma_pow16_16()
    ensures
        pow(16, 16) == 0x1_0000_0000_0000_0000int,
{
    reveal_with_fuel(pow, 17);
}

/// The canonical text of an offset is canonical, and its components are the
/// offset's.
pub proof fn lemma_canonical_text(read_seq: u64, byte_offset: u64)
    ensures
        is_canonical_text(canonical_text(read_seq, byte_offset)),
        text_components(canonical_text(read_seq, byte_offset)) == (
            read_seq as nat,
            byte_offset as nat,
        ),
{
    let a = hex_digits(read_seq as nat, 16);
    let b = hex_digits(byte_offset as nat, 16);
    lemma_hex_digits(read_seq as nat, 16);
    lemma_hex_digits(byte_offset as nat, 16);
    lemma_pow16_16();
    let s = canonical_text(read_seq, byte_offset);
    assert(s.subrange(0, 16) == a);
    assert(s.subrange(17, 33) == b);
    assert((read_seq as nat) % (0x1_0000_0000_0000_0000nat) == read_seq as nat);
    assert((byte_offset as nat) % (0x1_0000_0000_0000_0000nat) == byte_offset as nat);
}

/// `s` sorts strictly before `t` at some position where they first differ.
/// For texts of equal length this is the lexicographic order of strings.
pub open spec fn text_lt(s: Seq<char>, t: Seq<char>) -> bool {
    exists|i: int|
        0 <= i < s.len() && i < t.len() && s.subrange(0, i) == t.subrange(0, i) && #[trigger] s[i]
            < t[i]
}

proof fn lemma_all_lower_hex_drop_last(s: Seq<char>)
    requires
        all_lower_hex(s),
        s.len() > 0,
    ensures
        all_lower_hex(s.drop_last()),
        is_lower_hex(s.last()),
        hex_val(s.last()) < 16,
{
    assert(is_lower_hex(s[s.len() - 1]));
    assert forall|i: int| 0 <= i < s.len() - 1 implies #[trigger] is_lower_hex(
        s.drop_last()[i],
    ) by {
        assert(is_lower_hex(s[i]));
    }
}

/// Equal-length hex texts with equal values are equal.
proof fn lemma_hex_value_injective(u: Seq<char>, v: Seq<char>)
    requires
        u.len() == v.len(),
        all_lower_hex(u),
        all_lower_hex(v),
        hex_value(u) == hex_value(v),
    ensures
        u == v,
    decreases u.len(),
{
    if u.len() > 0 {
        lemma_all_lower_hex_drop_last(u);
        lemma_all_lower_hex_drop_last(v);
        let (a, b) = (hex_value(u.drop_last()), hex_value(v.drop_last()));
        let (c, d) = (hex_val(u.last()), hex_val(v.last()));
        assert(a == b && c == d) by (nonlinear_arith)
            requires
                a * 16 + c == b * 16 + d,
                c < 16,
                d < 16,
        ;
        lemma_hex_value_injective(u.drop_last(), v.drop_last());
        assert(u =~= u.drop_last().push(u.last()));
        assert(v =~= v.drop_last().push(v.last()));
    }
}

/// On equal-length hex texts, the order of values is the order of texts.
pub proof fn lemma_hex_order(u: Seq<char>, v: Seq<char>)
    requires
        u.len() == v.len(),
        all_lower_hex(u),
        all_lower_hex(v),
    ensures
        hex_value(u) < hex_value(v) <==> text_lt(u, v),
    decreases u.len(),
{
    if u.len() == 0 {
        assert(!text_lt(u, v));
    } else {
        let n = u.len() - 1;
        let (u1, v1) = (u.drop_last(), v.drop_last());
        lemma_all_lower_hex_drop_last(u);
        lemma_all_lower_hex_drop_last(v);
        lemma_hex_order(u1, v1);
        let (a, b) = (hex_value(u1), hex_value(v1));
        let (c, d) = (hex_val(u.last()), hex_val(v.last()));
        if text_lt(u, v) {
            let i = choose|i: int|
                0 <= i < u.len() && i < v.len() && u.subrange(0, i) == v.subrange(0, i)
                    && #[trigger] u[i] < v[i];
            if i < n {
                assert(u1.subrange(0, i) == u.subrange(0, i));
                assert(v1.subrange(0, i) == v.subrange(0, i));
                assert(u1[i] < v1[i]);
                assert(text_lt(u1, v1));
                assert(a * 16 + c < b * 16 + d) by (nonlinear_arith)
                    requires
                        a < b,
                        c < 16,
                ;
            } else {
                assert(u1 == u.subrange(0, i));
                assert(v1 == v.subrange(0, i));
                assert(is_lower_hex(u.last()) && is_lower_hex(v.last()));
                assert(c < d);
            }
        } else {
            if a < b {
                let i = choose|i: int|
                    0 <= i < u1.len() && i < v1.len() && u1.subrange(0, i) == v1.subrange(0, i)
                        && #[trigger] u1[i] < v1[i];
                assert(u.subrange(0, i) == u1.subrange(0, i));
                assert(v.subrange(0, i) == v1.subrange(0, i));
                assert(u[i] < v[i]);
                assert(false);
            } else if a == b {
                lemma_hex_value_injective(u1, v1);
                assert(u.subrange(0, n) == u1);
                assert(v.subrange(0, n) == v1);
                if c < d {
                    assert(is_lower_hex(u.last()) && is_lower_hex(v.last()));
                    assert(u[n] < v[n]);
                    assert(false);
                }
            }
            assert(!(a * 16 + c < b * 16 + d)) by (nonlinear_arith)
                requires
                    a >= b,
                    a == b ==> c >= d,
                    d < 16,
            ;
        }
    }
}

/// Comparing two canonical offset texts as strings compares their
/// `(read_seq, byte_offset)` pairs: the text order is the stream order.
pub proof fn lemma_canonical_order(a: u64, b: u64, c: u64, d: u64)
    ensures
        text_lt(canonical_text(a, b), canonical_text(c, d)) <==> (a < c || (a == c && b < d)),
{
    let s = canonical_text(a, b);
    let t = canonical_text(c, d);
    let (sa, sb) = (hex_digits(a as nat, 16), hex_digits(b as nat, 16));
    let (tc, td) = (hex_digits(c as nat, 16), hex_digits(d as nat, 16));
    lemma_canonical_text(a, b);
    lemma_canonical_text(c, d);
    lemma_hex_digits(a as nat, 16);
    lemma_hex_digits(b as nat, 16);
    lemma_hex_digits(c as nat, 16);
    lemma_hex_digits(d as nat, 16);
    lemma_pow16_16();
    assert(s.subrange(0, 16) == sa && t.subrange(0, 16) == tc);
    assert(s.subrange(17, 33) == sb && t.subrange(17, 33) == td);
    lemma_hex_order(sa, tc);
    lemma_hex_order(sb, td);
    assert(hex_value(sa) == a && hex_value(tc) == c);
    assert(hex_value(sb) == b && hex_value(td) == d);
    if text_lt(s, t) {
        let i = choose|i: int|
            0 <= i < s.len() && i < t.len() && s.subrange(0, i) == t.subrange(0, i) && #[trigger] s[i]
                < t[i];
        if i < 16 {
            assert(sa.subrange(0, i) == s.subrange(0, i));
            assert(tc.subrange(0, i) == t.subrange(0, i));
            assert(sa[i] == s[i] && tc[i] == t[i]);
            assert(text_lt(sa, tc));
        } else {
            assert(i != 16);
            assert(sa == s.subrange(0, i).subrange(0, 16));
            assert(tc == t.subrange(0, i).subrange(0, 16));
            let j = i - 17;
            assert(sb.subrange(0, j) == s.subrange(0, i).subrange(17, i));
            assert(td.subrange(0, j) == t.subrange(0, i).subrange(17, i));
            assert(sb[j] == s[i] && td[j] == t[i]);
            assert(text_lt(sb, td));
        }
    } else {
        if a < c {
            let i = choose|i: int|
                0 <= i < sa.len() && i < tc.len() && sa.subrange(0, i) == tc.subrange(0, i)
                    && #[trigger] sa[i] < tc[i];
            assert(s.subrange(0, i) == sa.subrange(0, i));
            assert(t.subrange(0, i) == tc.subrange(0, i));
            assert(s[i] < t[i]);
            assert(false);
        } else if a == c && b < d {
            let j = choose|j: int|
                0 <= j < sb.len() && j < td.len() && sb.subrange(0, j) == td.subrange(0, j)
                    && #[trigger] sb[j] < td[j];
            let i = j + 17;
            assert(s.subrange(0, i) =~= sa + seq!['_'] + sb.subrange(0, j));
            assert(t.subrange(0, i) =~= tc + seq!['_'] + td.subrange(0, j));
            assert(s[i] < t[i]);
            assert(false);
        }
    }
}

/// Reading back the components of a constructed offset gives its inputs.
pub proof fn lemma_components_roundtrip(read_seq: u64, byte_offset: u64)
    ensures
        components_of(canonical_text(read_seq, byte_offset)) == Some((read_seq, byte_offset)),
        is_offset_text(canonical_text(read_seq, byte_offset)),
{
    lemma_canonical_text(read_seq, byte_offset);
    assert(canonical_text(read_seq, byte_offset).len() == 33);
}

/// A canonical text is the canonical text of its own components.
pub proof fn lemma_canonical_of_components(s: Seq<char>)
    requires
        is_canonical_text(s),
    ensures
        components_of(s) is Some,
        s == canonical_text((components_of(s)->0).0, (components_of(s)->0).1),
{
    let u = s.subrange(0, 16);
    let v = s.subrange(17, 33);
    lemma_hex_value_bound(u);
    lemma_hex_value_bound(v);
    lemma_pow16_16();
    assert(s != start_text() && s != now_text()) by {
        assert(start_text().len() == 2 && now_text().len() == 3);
    }
    let a = hex_value(u);
    let b = hex_value(v);
    lemma_hex_digits(a, 16);
    lemma_hex_digits(b, 16);
    assert(u.len() == 16 && v.len() == 16);
    vstd::arithmetic::div_mod::lemma_small_mod(a, pow(16, 16) as nat);
    vstd::arithmetic::div_mod::lemma_small_mod(b, pow(16, 16) as nat);
    lemma_hex_value_injective(hex_digits(a, 16), u);
    lemma_hex_value_injective(hex_digits(b, 16), v);
    assert(s =~= canonical_text(a as u64, b as u64));
}

/// Distinct pairs give distinct offset texts.
pub proof fn lemma_canonical_injective(a: u64, b: u64, c: u64, d: u64)
    requires
        canonical_text(a, b) == canonical_text(c, d),
    ensures
        a == c && b == d,
{
    lemma_components_roundtrip(a, b);
    lemma_components_roundtrip(c, d);
}

/// The hex digit character of a value below 16.
fn hex_char_of(d: u64) -> (c: char)
    requires
        d < 16,
    ensures
        c == hex_char(d as nat),
{
    let b: u8 = if d < 10 {
        (d as u8) + 48
    } else {
        (d as u8) + 87
    };
    b as char
}

/// The sixteen hex digits of `n`, most significant first.
fn hex16(n: u64) -> (r: Vec<char>)
    ensures
        r@ == hex_digits(n as nat, 16),
{
    let mut v: u64 = n;
    let mut r: Vec<char> = Vec::new();
    let mut i: usize = 0;
    while i < 16
        invariant
            i <= 16,
            hex_digits(n as nat, 16) == hex_digits(v as nat, (16 - i) as nat) + r@,
        decreases 16 - i,
    {
        let c = hex_char_of(v % 16);
        let ghost before = r@;
        r.insert(0, c);
        assert(hex_digits(v as nat, (16 - i) as nat) == hex_digits(
            (v / 16) as nat,
            (16 - i - 1) as nat,
        ).push(c));
        assert(hex_digits((v / 16) as nat, (16 - i - 1) as nat).push(c) + before
            =~= hex_digits((v / 16) as nat, (16 - i - 1) as nat) + r@);
        v = v / 16;
        i = i + 1;
    }
    assert(hex_digits(v as nat, 0) + r@ =~= r@);
    r
}

/// The number of bytes of `c` in UTF-8.
pub open spec fn char_utf8_len(c: char) -> nat {
    if (c as u32) < 0x80 {
        1
    } else if (c as u32) < 0x800 {
        2
    } else if (c as u32) < 0x10000 {
        3
    } else {
        4
    }
}

/// The number of bytes of `s` in UTF-8 (what `str::len` reports).
pub open spec fn utf8_len(s: Seq<char>) -> nat
    decreases s.len(),
{
    if s.len() == 0 {
        0
    } else {
        utf8_len(s.drop_last()) + char_utf8_len(s.last())
    }
}

/// An ASCII hexadecimal digit, of either case (`char::is_ascii_hexdigit`).
pub open spec fn is_hex_digit(c: char) -> bool {
    ('0' <= c && c <= '9') || ('a' <= c && c <= 'f') || ('A' <= c && c <= 'F')
}

/// An ASCII uppercase letter.
pub open spec fn is_upper(c: char) -> bool {
    'A' <= c && c <= 'Z'
}

/// The index of the first `_` in `s`, if any.
pub open spec fn first_underscore(s: Seq<char>) -> Option<int>
    decreases s.len(),
{
    if s.len() == 0 {
        None
    } else if s[0] == '_' {
        Some(0)
    } else {
        match first_underscore(s.drop_first()) {
            Some(k) => Some(k + 1),
            None => None,
        }
    }
}

/// `first_underscore` finds the first `_`, or reports that there is none.
pub proof fn lemma_first_underscore(s: Seq<char>)
    ensures
        match first_underscore(s) {
            Some(k) => 0 <= k < s.len() && s[k] == '_' && forall|j: int| 0 <= j < k ==> s[j] != '_',
            None => forall|j: int| 0 <= j < s.len() ==> s[j] != '_',
        },
    decreases s.len(),
{
    if s.len() > 0 && s[0] != '_' {
        lemma_first_underscore(s.drop_first());
        assert forall|j: int| 1 <= j < s.len() implies s[j] == s.drop_first()[j - 1] by {}
    }
}

/// What is wrong with part `i` (1 or 2) of the offset text `s`, checked in
/// order: its length in bytes, then its characters, then their case.
pub open spec fn part_error(part: Seq<char>, i: nat, s: Seq<char>) -> Option<Seq<char>> {
    if utf8_len(part) != 16 {
        Some(
            "Expected 16 hex digits for part "@ + crate::protocol::cursor::decimal_text(i) + ", got "@
                + crate::protocol::cursor::decimal_text(utf8_len(part)) + " digits in '"@ + s
                + "'"@,
        )
    } else if !(forall|j: int| 0 <= j < part.len() ==> #[trigger] is_hex_digit(part[j])) {
        Some("Invalid hex character in part "@ + crate::protocol::cursor::decimal_text(i) + " of '"@ + s + "'"@)
    } else if exists|j: int| 0 <= j < part.len() && #[trigger] is_upper(part[j]) {
        Some("Offset must use lowercase hex digits: '"@ + s + "'"@)
    } else {
        None
    }
}

/// Why the text `s` is not an offset: no `_` at all, or the first problem
/// with the part before the first `_`, then with the part after it. `None`
/// when it is an offset.
pub open spec fn offset_parse_error(s: Seq<char>) -> Option<Seq<char>> {
    if s == start_text() || s == now_text() {
        None
    } else {
        match first_underscore(s) {
            None => Some("Expected format 'read_seq_byte_offset', got '"@ + s + "'"@),
            Some(k) => match part_error(s.take(k), 1, s) {
                Some(m) => Some(m),
                None => part_error(s.skip(k + 1), 2, s),
            },
        }
    }
}

/// Hex digits take one byte each.
proof fn lemma_hex_utf8_len(p: Seq<char>)
    requires
        forall|j: int| 0 <= j < p.len() ==> #[trigger] is_hex_digit(p[j]),
    ensures
        utf8_len(p) == p.len(),
    decreases p.len(),
{
    if p.len() > 0 {
        assert forall|j: int| 0 <= j < p.drop_last().len() implies #[trigger] is_hex_digit(
            p.drop_last()[j],
        ) by {
            assert(p.drop_last()[j] == p[j]);
        }
        lemma_hex_utf8_len(p.drop_last());
        assert(is_hex_digit(p.last()));
    }
}

/// A part passes exactly when it is sixteen lowercase hex digits.
proof fn lemma_part_ok(part: Seq<char>, i: nat, s: Seq<char>)
    ensures
        part_error(part, i, s) is None <==> (part.len() == 16 && all_lower_hex(part)),
{
    if part.len() == 16 && all_lower_hex(part) {
        assert forall|j: int| 0 <= j < part.len() implies #[trigger] is_hex_digit(part[j]) by {
            assert(is_lower_hex(part[j]));
        }
        lemma_hex_utf8_len(part);
        assert(!(exists|j: int| 0 <= j < part.len() && #[trigger] is_upper(part[j]))) by {
            if exists|j: int| 0 <= j < part.len() && #[trigger] is_upper(part[j]) {
                let j = choose|j: int| 0 <= j < part.len() && #[trigger] is_upper(part[j]);
                assert(is_lower_hex(part[j]));
            }
        }
    }
    if part_error(part, i, s) is None {
        lemma_hex_utf8_len(part);
        assert forall|j: int| 0 <= j < part.len() implies #[trigger] is_lower_hex(part[j]) by {
            assert(is_hex_digit(part[j]));
            if !is_lower_hex(part[j]) {
                assert(is_upper(part[j]));
            }
        }
    }
}

/// The texts without a parse error are exactly the offsets.
pub proof fn lemma_parse_error_iff(s: Seq<char>)
    ensures
        offset_parse_error(s) is None <==> is_offset_text(s),
{
    if s == start_text() || s == now_text() {
    } else {
        match first_underscore(s) {
            None => {
                lemma_first_underscore(s);
                if is_canonical_text(s) {
                    assert(s[16] == '_');
                }
            },
            Some(k) => {
                lemma_first_underscore(s);
                let p1 = s.take(k);
                let p2 = s.skip(k + 1);
                lemma_part_ok(p1, 1, s);
                lemma_part_ok(p2, 2, s);
                if is_canonical_text(s) {
                    if k < 16 {
                        assert(s.subrange(0, 16)[k] == s[k]);
                        assert(is_lower_hex(s.subrange(0, 16)[k]));
                    }
                    if k > 16 {
                        assert(s[16] == '_');
                    }
                    assert(k == 16);
                    assert(p1 =~= s.subrange(0, 16));
                    assert(p2 =~= s.subrange(17, 33));
                }
                if offset_parse_error(s) is None {
                    assert(p1.len() == 16 && all_lower_hex(p1));
                    assert(p2.len() == 16 && all_lower_hex(p2));
                    assert(s.len() == 33);
                    assert(p1 =~= s.subrange(0, 16));
                    assert(p2 =~= s.subrange(17, 33));
                }
            },
        }
    }
}

/// Appends a number's decimal text.
fn append_decimal(m: &mut String, n: u128)
    ensures
        final(m)@ == old(m)@ + crate::protocol::cursor::decimal_text(n as nat),
{
    let d = crate::protocol::cursor::decimal_string(n);
    crate::text::append_str(m, d.as_str());
}

/// The problem, if any, with characters `lo..hi` of `v` as part `part_no` of
/// the offset text `s`.
fn part_error_of(v: &Vec<char>, lo: usize, hi: usize, part_no: u64, s: &str) -> (r: Option<String>)
    requires
        lo <= hi <= v@.len(),
        v@ == s@,
    ensures
        match r {
            Some(m) => part_error(v@.subrange(lo as int, hi as int), part_no as nat, s@) == Some(m@),
            None => part_error(v@.subrange(lo as int, hi as int), part_no as nat, s@) is None,
        },
{
    let ghost part = v@.subrange(lo as int, hi as int);
    // Length in UTF-8 bytes.
    let mut bytes: u128 = 0;
    let mut i = lo;
    while i < hi
        invariant
            lo <= i <= hi <= v@.len(),
            part == v@.subrange(lo as int, hi as int),
            bytes == utf8_len(v@.subrange(lo as int, i as int)),
            bytes <= 4 * (i - lo),
        decreases hi - i,
    {
        let c = v[i] as u32;
        let w: u128 = if c < 0x80 {
            1
        } else if c < 0x800 {
            2
        } else if c < 0x10000 {
            3
        } else {
            4
        };
        assert(v@.subrange(lo as int, i + 1).drop_last() =~= v@.subrange(lo as int, i as int));
        bytes = bytes + w;
        i = i + 1;
    }
    assert(v@.subrange(lo as int, i as int) == part);
    if bytes != 16 {
        let mut m = "Expected 16 hex digits for part ".to_owned();
        append_decimal(&mut m, part_no as u128);
        crate::text::append_str(&mut m, ", got ");
        append_decimal(&mut m, bytes);
        crate::text::append_str(&mut m, " digits in '");
        crate::text::append_str(&mut m, s);
        crate::text::append_str(&mut m, "'");
        return Some(m);
    }
    let mut k = lo;
    while k < hi
        invariant
            lo <= k <= hi <= v@.len(),
            part == v@.subrange(lo as int, hi as int),
            utf8_len(part) == 16,
            forall|j: int| 0 <= j < k - lo ==> #[trigger] is_hex_digit(part[j]),
        decreases hi - k,
    {
        let c = v[k];
        assert(part[k - lo] == c);
        if !(('0' <= c && c <= '9') || ('a' <= c && c <= 'f') || ('A' <= c && c <= 'F')) {
            assert(!is_hex_digit(part[k - lo]));
            let mut m = "Invalid hex character in part ".to_owned();
            append_decimal(&mut m, part_no as u128);
            crate::text::append_str(&mut m, " of '");
            crate::text::append_str(&mut m, s);
            crate::text::append_str(&mut m, "'");
            return Some(m);
        }
        k = k + 1;
    }
    let mut u = lo;
    while u < hi
        invariant
            lo <= u <= hi <= v@.len(),
            part == v@.subrange(lo as int, hi as int),
            utf8_len(part) == 16,
            forall|j: int| 0 <= j < part.len() ==> #[trigger] is_hex_digit(part[j]),
            forall|j: int| 0 <= j < u - lo ==> !#[trigger] is_upper(part[j]),
        decreases hi - u,
    {
        let c = v[u];
        assert(part[u - lo] == c);
        if 'A' <= c && c <= 'Z' {
            assert(is_upper(part[u - lo]));
            let mut m = "Offset must use lowercase hex digits: '".to_owned();
            crate::text::append_str(&mut m, s);
            crate::text::append_str(&mut m, "'");
            return Some(m);
        }
        u = u + 1;
    }
    None
}

/// The value of the hex digits `s[from..to]`.
fn hex_value_in(s: &Vec<char>, from: usize, to: usize) -> (v: u64)
    requires
        from <= to <= s@.len(),
        to - from <= 16,
        all_lower_hex(s@.subrange(from as int, to as int)),
    ensures
        v as nat == hex_value(s@.subrange(from as int, to as int)),
{
    let mut v: u64 = 0;
    let mut i = from;
    while i < to
        invariant
            from <= i <= to <= s@.len(),
            to - from <= 16,
            all_lower_hex(s@.subrange(from as int, to as int)),
            v as nat == hex_value(s@.subrange(from as int, i as int)),
        decreases to - i,
    {
        let c = s[i];
        let ghost sub = s@.subrange(from as int, (i + 1) as int);
        assert(sub.drop_last() =~= s@.subrange(from as int, i as int));
        assert(s@.subrange(from as int, to as int)[i - from] == c);
        assert(is_lower_hex(c));
        assert(all_lower_hex(sub)) by {
            assert forall|j: int| 0 <= j < sub.len() implies #[trigger] is_lower_hex(sub[j]) by {
                assert(sub[j] == s@.subrange(from as int, to as int)[j]);
            }
        }
        proof {
            lemma_hex_value_bound(sub);
            lemma_pow_increases(16, sub.len(), 16);
            lemma_pow16_16();
        }
        let d: u64 = if c <= '9' {
            (c as u64) - 48
        } else {
            (c as u64) - 87
        };
        v = v * 16 + d;
        i = i + 1;
    }
    v
}

/// A position in a stream, or one of the two sentinels.
///
/// Offsets are compared by their text; the canonical form makes that order
/// the order of `(read_seq, byte_offset)` (see `lemma_canonical_order`).
#[derive(Debug, PartialEq, Eq, PartialOrd, Ord, Hash)]
pub struct Offset(String);

impl View for Offset {
    type V = Seq<char>;

    closed spec fn view(&self) -> Seq<char> {
        self.0@
    }
}

impl Offset {
    #[verifier::type_invariant]
    closed spec fn inv(self) -> bool {
        is_offset_text(self.0@)
    }

    /// The canonical offset for `(read_seq, byte_offset)`.
    pub fn new(read_seq: u64, byte_offset: u64) -> (o: Offset)
        ensures
            o@ == canonical_text(read_seq, byte_offset),
    {
        let a = hex16(read_seq);
        let b = hex16(byte_offset);
        proof {
            lemma_hex_digits(read_seq as nat, 16);
            lemma_hex_digits(byte_offset as nat, 16);
        }
        let mut s = String::new();
        let mut i: usize = 0;
        while i < 16
            invariant
                i <= 16,
                a@.len() == 16,
                s@ == a@.subrange(0, i as int),
            decreases 16 - i,
        {
            push_char(&mut s, a[i]);
            assert(a@.subrange(0, i + 1) =~= a@.subrange(0, i as int).push(a@[i as int]));
            i = i + 1;
        }
        push_char(&mut s, '_');
        let mut j: usize = 0;
        while j < 16
            invariant
                j <= 16,
                a@.len() == 16,
                b@.len() == 16,
                s@ == a@ + seq!['_'] + b@.subrange(0, j as int),
            decreases 16 - j,
        {
            push_char(&mut s, b[j]);
            assert(b@.subrange(0, j + 1) =~= b@.subrange(0, j as int).push(b@[j as int]));
            assert(a@ + seq!['_'] + b@.subrange(0, j + 1) =~= (a@ + seq!['_'] + b@.subrange(
                0,
                j as int,
            )).push(b@[j as int]));
            j = j + 1;
        }
        assert(b@.subrange(0, 16) =~= b@);
        proof {
            lemma_canonical_text(read_seq, byte_offset);
        }
        Offset(s)
    }

    /// The start sentinel `-1`.
    pub fn start() -> (o: Offset)
        ensures
            o@ == start_text(),
    {
        let s = String::from_str("-1");
        proof {
            reveal_strlit("-1");
        }
        assert(s@ =~= start_text());
        Offset(s)
    }

    /// The tail sentinel `now`.
    pub fn now() -> (o: Offset)
        ensures
            o@ == now_text(),
    {
        let s = String::from_str("now");
        proof {
            reveal_strlit("now");
        }
        assert(s@ =~= now_text());
        Offset(s)
    }

    /// Whether this is the start sentinel.
    pub fn is_start(&self) -> (b: bool)
        ensures
            b == (self@ == start_text()),
    {
        let v = chars_of(self.0.as_str());
        let b = v.len() == 2 && v[0] == '-' && v[1] == '1';
        assert(b ==> v@ =~= start_text());
        b
    }

    /// Whether this is the tail sentinel.
    pub fn is_now(&self) -> (b: bool)
        ensures
            b == (self@ == now_text()),
    {
        let v = chars_of(self.0.as_str());
        let b = v.len() == 3 && v[0] == 'n' && v[1] == 'o' && v[2] == 'w';
        assert(b ==> v@ =~= now_text());
        b
    }

    /// Whether this is either sentinel.
    pub fn is_sentinel(&self) -> (b: bool)
        ensures
            b == (self@ == start_text() || self@ == now_text()),
    {
        self.is_start() || self.is_now()
    }

    /// The offset's text.
    pub fn as_str(&self) -> (s: &str)
        ensures
            s@ == self@,
    {
        self.0.as_str()
    }

    /// The `(read_seq, byte_offset)` pair of a canonical offset; `None` for a
    /// sentinel.
    pub fn parse_components(&self) -> (r: Option<(u64, u64)>)
        ensures
            r == components_of(self@),
    {
        proof {
            use_type_invariant(self);
        }
        if self.is_sentinel() {
            return None;
        }
        let v = chars_of(self.0.as_str());
        let a = hex_value_in(&v, 0, 16);
        let b = hex_value_in(&v, 17, 33);
        Some((a, b))
    }

    /// Parses an offset text: a sentinel, or the canonical form with exactly
    /// sixteen lowercase hex digits on each side of the first `_`. A refusal
    /// names the first problem found.
    pub fn parse(s: &str) -> (r: Result<Offset, Error>)
        ensures
            r is Ok <==> is_offset_text(s@),
            r matches Ok(o) ==> o@ == s@,
            r matches Err(e) ==> e@ == ErrorView::InvalidOffset(offset_parse_error(s@)->0),
    {
        proof {
            lemma_parse_error_iff(s@);
        }
        let v = chars_of(s);
        let is_start = v.len() == 2 && v[0] == '-' && v[1] == '1';
        let is_now = v.len() == 3 && v[0] == 'n' && v[1] == 'o' && v[2] == 'w';
        if is_start || is_now {
            assert(is_start ==> v@ =~= start_text());
            assert(is_now ==> v@ =~= now_text());
            return Ok(Offset(String::from_str(s)));
        }
        assert(v@ != start_text() && v@ != now_text()) by {
            if v@ == start_text() {
                assert(v@[0] == '-' && v@[1] == '1');
            }
            if v@ == now_text() {
                assert(v@[0] == 'n' && v@[1] == 'o' && v@[2] == 'w');
            }
        }
        proof {
            lemma_first_underscore(v@);
        }
        // Position of the first `_`.
        let mut k: usize = 0;
        while k < v.len() && v[k] != '_'
            invariant
                k <= v@.len(),
                forall|j: int| 0 <= j < k ==> v@[j] != '_',
            decreases v.len() - k,
        {
            k = k + 1;
        }
        if k == v.len() {
            assert(first_underscore(v@) is None);
            let mut m = "Expected format 'read_seq_byte_offset', got '".to_owned();
            crate::text::append_str(&mut m, s);
            crate::text::append_str(&mut m, "'");
            return Err(Error::InvalidOffset(m));
        }
        assert(first_underscore(v@) == Some(k as int));
        assert(v@.subrange(0, k as int) =~= v@.take(k as int));
        assert(v@.subrange(k + 1, v@.len() as int) =~= v@.skip(k + 1));
        if let Some(m) = part_error_of(&v, 0, k, 1, s) {
            return Err(Error::InvalidOffset(m));
        }
        if let Some(m) = part_error_of(&v, k + 1, v.len(), 2, s) {
            return Err(Error::InvalidOffset(m));
        }
        Ok(Offset(String::from_str(s)))
    }
}

impl Clone for Offset {
    fn clone(&self) -> (o: Offset)
        ensures
            o@ == self@,
    {
        proof {
            use_type_invariant(self);
        }
        Offset(self.0.clone())
    }
}

impl core::str::FromStr for Offset {
    type Err = Error;

    fn from_str(s: &str) -> (r: Result<Offset, Error>)
        ensures
            r is Ok <==> is_offset_text(s@),
            r matches Ok(o) ==> o@ == s@,
            r matches Err(e) ==> e@ == ErrorView::InvalidOffset(offset_parse_error(s@)->0),
    {
        Offset::parse(s)
    }
}

impl From<Offset> for String {
    fn from(offset: Offset) -> (s: String) {
        offset.0
    }
}

impl vstd::std_specs::convert::FromSpecImpl<Offset> for String {
    open spec fn obeys_from_spec() -> bool {
        true
    }

    closed spec fn from_spec(v: Offset) -> String {
        v.0
    }
}

} // verus!
