//! Stream metadata (`HEAD /v1/stream/{name}`).

use crate::handlers::{flag_value, header, offset_value, ResponseParts, ResponseView, STREAM_CLOSED, STREAM_NEXT_OFFSET};
use crate::storage::{MetadataView, StreamMetadata};
use vstd::prelude::*;

verus! {

/// The answer to a metadata request: 200 with the content type, the next
/// offset and, for a closed stream, `Stream-Closed: true`.
pub open spec fn head_response_spec(m: MetadataView) -> ResponseView {
    let base = seq![("content-type"@, m.config.content_type), ("Stream-Next-Offset"@, m.next_offset)];
    ResponseView {
        status: 200,
        headers: if m.closed {
            base.push(("Stream-Closed"@, "true"@))
        } else {
            base
        },
        body: seq![],
    }
}

/// Builds the answer to a metadata request.
pub fn head_response(metadata: &StreamMetadata) -> (r: ResponseParts)
    ensures
        r@ == head_response_spec(metadata@),
{
    let mut headers: Vec<(String, String)> = Vec::new();
    headers.push(header("content-type", metadata.config.content_type.as_str()));
    let off = offset_value(&metadata.next_offset);
    headers.push(header(STREAM_NEXT_OFFSET, off.as_str()));
    if metadata.closed {
        headers.push(header(STREAM_CLOSED, flag_value(true)));
    }
    let r = ResponseParts { status: 200, headers, body: Vec::new() };
    assert(r@.headers =~= head_response_spec(metadata@).headers);
    r
}

} // verus!
