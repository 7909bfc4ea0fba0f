//! Server-sent events: which streams are sent base64-encoded, the text of a
//! data event, and the fields of a control event.

use crate::text::str_eq;
use base64::Engine;
use vstd::prelude::*;
use vstd::utf8::encode_utf8;

verus! {

/// The fields of an `event: control` payload.
///
/// On the wire the names are camelCase and absent fields are left out.
#[derive(Debug)]
pub struct ControlPayload {
    /// Current tail position (always present).
    pub stream_next_offset: String,
    /// Cursor for CDN collapsing (present when stream is open).
    pub stream_cursor: Option<String>,
    /// True when client has caught up with all available data.
    pub up_to_date: Option<bool>,
    /// True when stream is closed and all data has been sent.
    pub stream_closed: Option<bool>,
}

/// Whether a content type is sent base64-encoded in SSE mode: everything but
/// `text/*` and `application/json`.
pub open spec fn binary_content_type(ct: Seq<char>) -> bool {
    !(ct.len() >= 5 && ct.subrange(0, 5) == "text/"@) && ct != "application/json"@
}

/// Whether a content type needs base64 encoding in SSE mode.
///
/// `text/*` and `application/json` streams carry UTF-8 text directly; every
/// other content type is binary.
pub fn is_binary_content_type(ct: &str) -> (r: bool)
    ensures
        r == binary_content_type(ct@),
{
    let v = crate::text::chars_of(ct);
    let prefix_text = v.len() >= 5 && v[0] == 't' && v[1] == 'e' && v[2] == 'x' && v[3] == 't'
        && v[4] == '/';
    proof {
        reveal_strlit("text/");
        let lit = "text/"@;
        assert(lit.len() == 5 && lit[0] == 't' && lit[1] == 'e' && lit[2] == 'x' && lit[3] == 't'
            && lit[4] == '/');
        if v@.len() >= 5 {
            let sub = v@.subrange(0, 5);
            if prefix_text {
                assert(sub =~= lit);
            }
            if sub == lit {
                assert(sub[0] == 't' && sub[1] == 'e' && sub[2] == 'x' && sub[3] == 't' && sub[4]
                    == '/');
            }
        }
    }
    if prefix_text {
        return false;
    }
    if str_eq(ct, "application/json") {
        return false;
    }
    true
}

/// The standard base64 encoding (with padding) of `data`, as
/// `base64::engine::general_purpose::STANDARD` writes it.
pub uninterp spec fn base64_standard(data: Seq<u8>) -> Seq<char>;

/// The text `String::from_utf8_lossy` makes of `data`.
pub uninterp spec fn utf8_lossy(data: Seq<u8>) -> Seq<char>;

/// Base64-encodes `data` with the standard alphabet and padding
/// (`STANDARD.encode`).
#[verifier::external_body]
fn encode_base64_standard(data: &[u8]) -> (r: String)
    ensures
        r@ == base64_standard(data@),
{
    base64::engine::general_purpose::STANDARD.encode(data)
}

/// Decodes `data` as UTF-8, replacing invalid sequences with U+FFFD
/// (`String::from_utf8_lossy`). Valid UTF-8 comes back unchanged.
#[verifier::external_body]
fn decode_utf8_lossy(data: &[u8]) -> (r: String)
    ensures
        r@ == utf8_lossy(data@),
        (exists|s: Seq<char>| encode_utf8(s) == data@) ==> encode_utf8(r@) == data@,
{
    String::from_utf8_lossy(data).into_owned()
}

/// The text of an `event: data` SSE event for one stored message: base64 for
/// binary streams, UTF-8 text otherwise.
pub fn data_event_text(data: &[u8], is_binary: bool) -> (text: String)
    ensures
        is_binary ==> text@ == base64_standard(data@),
        !is_binary ==> text@ == utf8_lossy(data@),
{
    if is_binary {
        encode_base64_standard(data)
    } else {
        decode_utf8_lossy(data)
    }
}

} // verus!
