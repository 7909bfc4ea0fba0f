//! Protocol header names and values: content-type normalisation, boolean
//! flags, TTLs and absolute expiry times.

use crate::protocol::error::Error;
use crate::text::{
    ascii_lower, ascii_lower_chars, chars_eq_str, chars_of, is_digit, parse_u64, parse_u64_spec,
    string_of_chars,
};
use vstd::prelude::*;

verus! {

/// Whitespace that surrounds header parameters.
pub open spec fn is_space(c: char) -> bool {
    c == ' ' || c == '\t' || c == '\n' || c == '\r'
}

/// The text before the first `;` (all of it when there is none).
pub open spec fn before_semicolon(s: Seq<char>) -> Seq<char>
    decreases s.len(),
{
    if s.len() == 0 {
        s
    } else if s[0] == ';' {
        seq![]
    } else {
        seq![s[0]] + before_semicolon(s.drop_first())
    }
}

/// `s` without leading whitespace.
pub open spec fn trim_start(s: Seq<char>) -> Seq<char>
    decreases s.len(),
{
    if s.len() > 0 && is_space(s[0]) {
        trim_start(s.drop_first())
    } else {
        s
    }
}

/// `s` without trailing whitespace.
pub open spec fn trim_end(s: Seq<char>) -> Seq<char>
    decreases s.len(),
{
    if s.len() > 0 && is_space(s.last()) {
        trim_end(s.drop_last())
    } else {
        s
    }
}

/// The normalised form of a content type: the media type before any
/// parameters, without surrounding whitespace, in ASCII lowercase.
pub open spec fn normalized_content_type(s: Seq<char>) -> Seq<char> {
    ascii_lower(trim_end(trim_start(before_semicolon(s))))
}

proof fn lemma_before_semicolon(s: Seq<char>, k: int)
    requires
        0 <= k <= s.len(),
        forall|j: int| 0 <= j < k ==> s[j] != ';',
        k == s.len() || s[k] == ';',
    ensures
        before_semicolon(s) == s.subrange(0, k),
    decreases s.len(),
{
    if s.len() > 0 {
        if k > 0 {
            lemma_before_semicolon(s.drop_first(), k - 1);
            assert(seq![s[0]] + s.drop_first().subrange(0, k - 1) =~= s.subrange(0, k));
        } else {
            assert(s.subrange(0, 0) =~= seq![]);
        }
    }
}

proof fn lemma_trim_start(s: Seq<char>, a: int)
    requires
        0 <= a <= s.len(),
        forall|j: int| 0 <= j < a ==> is_space(s[j]),
        a == s.len() || !is_space(s[a]),
    ensures
        trim_start(s) == s.subrange(a, s.len() as int),
    decreases s.len(),
{
    if s.len() > 0 && is_space(s[0]) {
        lemma_trim_start(s.drop_first(), a - 1);
        assert(s.drop_first().subrange(a - 1, s.len() - 1) =~= s.subrange(a, s.len() as int));
    } else {
        assert(s.subrange(0, s.len() as int) =~= s);
    }
}

proof fn lemma_trim_end(s: Seq<char>, b: int)
    requires
        0 <= b <= s.len(),
        forall|j: int| b <= j < s.len() ==> is_space(s[j]),
        b == 0 || !is_space(s[b - 1]),
    ensures
        trim_end(s) == s.subrange(0, b),
    decreases s.len(),
{
    if s.len() > 0 && is_space(s.last()) {
        lemma_trim_end(s.drop_last(), b);
        assert(s.drop_last().subrange(0, b) =~= s.subrange(0, b));
    } else {
        assert(s.subrange(0, s.len() as int) =~= s);
    }
}

/// Whether a header value holds nothing but whitespace.
pub fn is_blank(s: &str) -> (r: bool)
    ensures
        r == (trim_start(s@).len() == 0),
{
    let v = chars_of(s);
    let mut a: usize = 0;
    while a < v.len() && (v[a] == ' ' || v[a] == '\t' || v[a] == '\n' || v[a] == '\r')
        invariant
            a <= v@.len(),
            v@ == s@,
            forall|j: int| 0 <= j < a ==> is_space(v@[j]),
        decreases v.len() - a,
    {
        a = a + 1;
    }
    proof {
        lemma_trim_start(v@, a as int);
    }
    a == v.len()
}

/// Normalises a content type: drops parameters such as `charset`, trims
/// whitespace and lowercases.
pub fn normalize_content_type(ct: &str) -> (r: String)
    ensures
        r@ == normalized_content_type(ct@),
{
    let v = chars_of(ct);
    let mut k: usize = 0;
    while k < v.len() && v[k] != ';'
        invariant
            k <= v@.len(),
            forall|j: int| 0 <= j < k ==> v@[j] != ';',
        decreases v.len() - k,
    {
        k = k + 1;
    }
    proof {
        lemma_before_semicolon(v@, k as int);
    }
    let ghost m = v@.subrange(0, k as int);
    let mut a: usize = 0;
    while a < k && (v[a] == ' ' || v[a] == '\t' || v[a] == '\n' || v[a] == '\r')
        invariant
            a <= k <= v@.len(),
            m == v@.subrange(0, k as int),
            forall|j: int| 0 <= j < a ==> is_space(v@[j]),
        decreases k - a,
    {
        a = a + 1;
    }
    proof {
        lemma_trim_start(m, a as int);
    }
    let ghost t = m.subrange(a as int, k as int);
    let mut b: usize = k;
    while b > a && (v[b - 1] == ' ' || v[b - 1] == '\t' || v[b - 1] == '\n' || v[b - 1] == '\r')
        invariant
            a <= b <= k <= v@.len(),
            t == v@.subrange(a as int, k as int),
            forall|j: int| b <= j < k ==> is_space(v@[j]),
        decreases b - a,
    {
        b = b - 1;
    }
    proof {
        lemma_trim_end(t, b - a);
        assert(t.subrange(0, b - a) =~= v@.subrange(a as int, b as int));
    }
    let mut w: Vec<char> = Vec::new();
    let mut i = a;
    while i < b
        invariant
            a <= i <= b <= v@.len(),
            w@ == v@.subrange(a as int, i as int),
        decreases b - i,
    {
        w.push(v[i]);
        assert(v@.subrange(a as int, i + 1) =~= v@.subrange(a as int, i as int).push(v@[i as int]));
        i = i + 1;
    }
    let l = ascii_lower_chars(&w);
    string_of_chars(&l)
}

/// Whether a flag header reads as true: `true` in any ASCII case.
pub open spec fn is_true_flag(v: Seq<char>) -> bool {
    ascii_lower(v) == "true"@
}

/// Parses a boolean flag header such as `Stream-Closed`.
pub fn parse_bool(v: &str) -> (b: bool)
    ensures
        b == is_true_flag(v@),
{
    let c = chars_of(v);
    let l = ascii_lower_chars(&c);
    chars_eq_str(&l, "true")
}

/// The value of a `Stream-TTL` header: decimal digits only, without a sign or
/// a leading zero (but `0` itself), that fit in a `u64`.
pub open spec fn ttl_value(s: Seq<char>) -> Option<u64> {
    if s.len() > 0 && (forall|i: int| 0 <= i < s.len() ==> #[trigger] is_digit(s[i])) && !(
    s.len() > 1 && s[0] == '0') {
        parse_u64_spec(s)
    } else {
        None
    }
}

/// Parses a `Stream-TTL` header value (seconds).
pub fn parse_ttl(value: &str) -> (r: Result<u64, Error>)
    ensures
        match ttl_value(value@) {
            Some(t) => r == Ok::<u64, Error>(t),
            None => r matches Err(Error::InvalidHeader { header, reason }) && header@
                == "Stream-TTL"@ && reason@ == "invalid TTL value"@,
        },
{
    let v = chars_of(value);
    let shape_ok = v.len() > 0 && !(v.len() > 1 && v[0] == '0');
    let mut digits = true;
    let mut i: usize = 0;
    while i < v.len()
        invariant
            i <= v@.len(),
            v@ == value@,
            digits == forall|j: int| 0 <= j < i ==> #[trigger] is_digit(v@[j]),
        decreases v.len() - i,
    {
        if !('0' <= v[i] && v[i] <= '9') {
            assert(!is_digit(v@[i as int]));
            digits = false;
        }
        assert(digits ==> forall|j: int| 0 <= j < i + 1 ==> #[trigger] is_digit(v@[j]));
        i = i + 1;
    }
    let ok = shape_ok && digits;
    let parsed = if ok {
        parse_u64(value)
    } else {
        None
    };
    match parsed {
        Some(t) => Ok(t),
        None => Err(
            Error::InvalidHeader {
                header: "Stream-TTL".to_owned(),
                reason: "invalid TTL value".to_owned(),
            },
        ),
    }
}

/// The instant an RFC 3339 timestamp names, as chrono's
/// `DateTime::parse_from_rfc3339` reads it: whole seconds since the Unix
/// epoch (`timestamp`) and nanoseconds past that second
/// (`timestamp_subsec_nanos`).
pub uninterp spec fn rfc3339_instant(s: Seq<char>) -> Option<(i64, u32)>;

/// Reads an RFC 3339 timestamp (`DateTime::parse_from_rfc3339`) and returns
/// its instant as seconds since the Unix epoch (`timestamp`) and nanoseconds
/// past that second (`timestamp_subsec_nanos`), which together tell instants
/// apart exactly as chrono's `DateTime` does.
#[verifier::external_body]
fn parse_rfc3339_instant(s: &str) -> (r: Option<(i64, u32)>)
    ensures
        r == rfc3339_instant(s@),
{
    match chrono::DateTime::parse_from_rfc3339(s) {
        Ok(t) => Some((t.timestamp(), t.timestamp_subsec_nanos())),
        Err(_) => None,
    }
}

/// Parses a `Stream-Expires-At` header value (an RFC 3339 timestamp) into
/// its instant: seconds since the Unix epoch and nanoseconds past them.
pub fn parse_expires_at(value: &str) -> (r: Result<(i64, u32), Error>)
    ensures
        match rfc3339_instant(value@) {
            Some(t) => r == Ok::<(i64, u32), Error>(t),
            None => r matches Err(Error::InvalidHeader { header, reason }) && header@
                == "Stream-Expires-At"@ && reason@ == "invalid RFC 3339 timestamp"@,
        },
{
    match parse_rfc3339_instant(value) {
        Some(t) => Ok(t),
        None => Err(
            Error::InvalidHeader {
                header: "Stream-Expires-At".to_owned(),
                reason: "invalid RFC 3339 timestamp".to_owned(),
            },
        ),
    }
}

} // verus!
