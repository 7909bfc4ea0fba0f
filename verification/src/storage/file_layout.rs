//! Where a file-backed stream lives: one directory per stream under the
//! storage root, named by the base64url encoding of the stream name, so that
//! no name can reach outside the root.

use crate::protocol::error::{Error, ErrorView};
use base64::Engine;
use vstd::prelude::*;

verus! {

/// The URL-safe base64 encoding without padding of `data`, as
/// `base64::prelude::BASE64_URL_SAFE_NO_PAD` writes it.
pub uninterp spec fn base64_url(data: Seq<u8>) -> Seq<char>;

/// Base64url-encodes `data` without padding (`BASE64_URL_SAFE_NO_PAD.encode`).
#[verifier::external_body]
fn encode_base64_url(data: &[u8]) -> (r: String)
    ensures
        r@ == base64_url(data@),
{
    base64::prelude::BASE64_URL_SAFE_NO_PAD.encode(data)
}

/// A character allowed in a stream directory name: ASCII letters and digits,
/// `-` and `_`.
pub open spec fn dir_char(c: char) -> bool {
    ('a' <= c && c <= 'z') || ('A' <= c && c <= 'Z') || ('0' <= c && c <= '9') || c == '-' || c
        == '_'
}

/// The directory name of stream `name`, or the refusal when its encoding
/// holds a character that could form a path.
pub open spec fn stream_dir_spec(name: Seq<char>) -> Result<Seq<char>, ErrorView> {
    let encoded = base64_url(vstd::utf8::encode_utf8(name));
    if forall|i: int| 0 <= i < encoded.len() ==> #[trigger] dir_char(encoded[i]) {
        Ok(encoded)
    } else {
        Err(ErrorView::Storage("encoded stream directory contains invalid characters"@))
    }
}

/// The directory name of a stream: the base64url encoding of its name,
/// checked to hold only `[A-Za-z0-9_-]`.
pub fn stream_dir_name(name: &str) -> (r: Result<String, Error>)
    ensures
        match r {
            Ok(d) => stream_dir_spec(name@) == Ok::<Seq<char>, ErrorView>(d@),
            Err(e) => stream_dir_spec(name@) == Err::<Seq<char>, ErrorView>(e@),
        },
{
    let bytes = name.as_bytes();
    assert(bytes@ == vstd::utf8::encode_utf8(name@));
    let encoded = encode_base64_url(bytes);
    let v = crate::text::chars_of(encoded.as_str());
    let mut i: usize = 0;
    while i < v.len()
        invariant
            i <= v@.len(),
            v@ == encoded@,
            encoded@ == base64_url(vstd::utf8::encode_utf8(name@)),
            forall|j: int| 0 <= j < i ==> #[trigger] dir_char(v@[j]),
        decreases v.len() - i,
    {
        let c = v[i];
        if !(('a' <= c && c <= 'z') || ('A' <= c && c <= 'Z') || ('0' <= c && c <= '9') || c == '-'
            || c == '_') {
            assert(!dir_char(v@[i as int]));
            assert(!(forall|j: int|
                0 <= j < encoded@.len() ==> #[trigger] dir_char(encoded@[j])));

            return Err(
                Error::Storage("encoded stream directory contains invalid characters".to_owned()),
            );
        }
        i = i + 1;
    }
    Ok(encoded)
}

} // verus!
