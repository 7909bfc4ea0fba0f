//! Appending to a stream (`POST /v1/stream/{name}`).

use crate::handlers::{
    flag_value, header, number_value, offset_value, ResponseParts, ResponseView, PRODUCER_EPOCH,
    PRODUCER_EXPECTED_SEQ, PRODUCER_RECEIVED_SEQ, PRODUCER_SEQ, STREAM_CLOSED, STREAM_NEXT_OFFSET,
};
use crate::protocol::cursor::decimal_text;
use crate::protocol::error::{Error, ErrorView};
use crate::protocol::headers::{normalize_content_type, normalized_content_type};
use crate::protocol::json_mode::{append_messages as json_messages, is_json_content_type, message_bytes, process_append};
use crate::protocol::offset::Offset;
use crate::storage::{opt_text, ProducerAppendResult, ProducerAppendView};
use vstd::prelude::*;
use vstd::utf8::encode_utf8;

verus! {

/// The content type of an append: required, and normalised.
pub open spec fn append_content_type_spec(ct: Option<Seq<char>>) -> Result<Seq<char>, ErrorView> {
    match ct {
        None => Err(
            ErrorView::InvalidHeader {
                header: "Content-Type"@,
                reason: "missing required header"@,
            },
        ),
        Some(c) => Ok(normalized_content_type(c)),
    }
}

/// The content type of an append request.
pub fn append_content_type(content_type: Option<&str>) -> (r: Result<String, Error>)
    ensures
        match r {
            Ok(s) => append_content_type_spec(opt_text(content_type)) == Ok::<Seq<char>, ErrorView>(
                s@,
            ),
            Err(e) => append_content_type_spec(opt_text(content_type)) == Err::<
                Seq<char>,
                ErrorView,
            >(e@),
        },
{
    match content_type {
        None => Err(
            Error::InvalidHeader {
                header: "Content-Type".to_owned(),
                reason: "missing required header".to_owned(),
            },
        ),
        Some(ct) => Ok(normalize_content_type(ct)),
    }
}

/// The messages an append stores: an empty body is only allowed with
/// `Stream-Closed` and stores nothing; a JSON stream flattens arrays; any
/// other stream stores the body as one message.
pub open spec fn append_body_spec(body: Seq<u8>, should_close: bool, content_type: Seq<char>)
    -> Result<Seq<Seq<u8>>, ErrorView> {
    if body.len() == 0 && !should_close {
        Err(
            ErrorView::InvalidHeader {
                header: "Content-Length"@,
                reason: "empty body requires Stream-Closed header"@,
            },
        )
    } else if body.len() == 0 {
        Ok(seq![])
    } else if content_type == "application/json"@ {
        json_messages(body)
    } else {
        Ok(seq![body])
    }
}

/// The messages of an append request.
pub fn append_body_messages(body: Vec<u8>, should_close: bool, content_type: &str) -> (r: Result<
    Vec<Vec<u8>>,
    Error,
>)
    ensures
        match r {
            Ok(msgs) => append_body_spec(body@, should_close, content_type@) == Ok::<
                Seq<Seq<u8>>,
                ErrorView,
            >(message_bytes(msgs@)),
            Err(e) => append_body_spec(body@, should_close, content_type@) == Err::<
                Seq<Seq<u8>>,
                ErrorView,
            >(e@),
        },
{
    if body.len() == 0 && !should_close {
        return Err(
            Error::InvalidHeader {
                header: "Content-Length".to_owned(),
                reason: "empty body requires Stream-Closed header".to_owned(),
            },
        );
    }
    if body.len() == 0 {
        let msgs: Vec<Vec<u8>> = Vec::new();
        assert(message_bytes(msgs@) =~= seq![]);
        return Ok(msgs);
    }
    if is_json_content_type(content_type) {
        process_append(body.as_slice())
    } else {
        let ghost b = body@;
        let mut msgs: Vec<Vec<u8>> = Vec::new();
        msgs.push(body);
        assert(message_bytes(msgs@) =~= seq![b]);
        Ok(msgs)
    }
}

/// The answer to an append without a producer: 204 with the next offset,
/// and `Stream-Closed: true` when the request also closed the stream.
pub open spec fn append_response_spec(next_offset: Seq<char>, closed: bool) -> ResponseView {
    let base = seq![("Stream-Next-Offset"@, next_offset)];
    ResponseView {
        status: 204,
        headers: if closed {
            base.push(("Stream-Closed"@, "true"@))
        } else {
            base
        },
        body: seq![],
    }
}

/// Builds the answer to an append without a producer; `closed` tells whether
/// the request closed the stream.
pub fn append_response(next_offset: &Offset, closed: bool) -> (r: ResponseParts)
    ensures
        r@ == append_response_spec(next_offset@, closed),
{
    let mut headers: Vec<(String, String)> = Vec::new();
    let off = offset_value(next_offset);
    headers.push(header(STREAM_NEXT_OFFSET, off.as_str()));
    if closed {
        headers.push(header(STREAM_CLOSED, flag_value(true)));
    }
    let r = ResponseParts { status: 204, headers, body: Vec::new() };
    assert(r@.headers =~= append_response_spec(next_offset@, closed).headers);
    r
}

/// The answer to a producer append: 200 when accepted, 204 for a duplicate,
/// with the next offset, the producer's epoch and sequence, and
/// `Stream-Closed: true` when the stream is closed.
pub open spec fn producer_response_spec(v: ProducerAppendView) -> ResponseView {
    let (status, epoch, seq, next_offset, closed) = match v {
        ProducerAppendView::Accepted { epoch, seq, next_offset, closed } => (
            200u16,
            epoch,
            seq,
            next_offset,
            closed,
        ),
        ProducerAppendView::Duplicate { epoch, seq, next_offset, closed } => (
            204u16,
            epoch,
            seq,
            next_offset,
            closed,
        ),
    };
    let base = seq![
        ("Stream-Next-Offset"@, next_offset),
        ("Producer-Epoch"@, decimal_text(epoch as nat)),
        ("Producer-Seq"@, decimal_text(seq as nat)),
    ];
    ResponseView {
        status,
        headers: if closed {
            base.push(("Stream-Closed"@, "true"@))
        } else {
            base
        },
        body: seq![],
    }
}

/// Builds the answer to a producer append.
pub fn producer_response(result: &ProducerAppendResult) -> (r: ResponseParts)
    ensures
        r@ == producer_response_spec(result@),
{
    let (status, epoch, seq, next_offset, closed): (u16, u64, u64, &Offset, bool) = match result {
        ProducerAppendResult::Accepted { epoch, seq, next_offset, closed } => (
            200,
            *epoch,
            *seq,
            next_offset,
            *closed,
        ),
        ProducerAppendResult::Duplicate { epoch, seq, next_offset, closed } => (
            204,
            *epoch,
            *seq,
            next_offset,
            *closed,
        ),
    };
    let mut headers: Vec<(String, String)> = Vec::new();
    let off = offset_value(next_offset);
    headers.push(header(STREAM_NEXT_OFFSET, off.as_str()));
    let e = number_value(epoch);
    headers.push(header(PRODUCER_EPOCH, e.as_str()));
    let s = number_value(seq);
    headers.push(header(PRODUCER_SEQ, s.as_str()));
    if closed {
        headers.push(header(STREAM_CLOSED, flag_value(true)));
    }
    let r = ResponseParts { status, headers, body: Vec::new() };
    assert(r@.headers =~= producer_response_spec(result@).headers);
    r
}

/// The bytes of a short text body.
fn text_body(s: &str) -> (b: Vec<u8>)
    ensures
        b@ == encode_utf8(s@),
{
    s.as_bytes_vec()
}

/// The answer to an append on a closed stream: 409 with `Stream-Closed: true`
/// and the next offset.
pub fn stream_closed_response(next_offset: &Offset) -> (r: ResponseParts)
    ensures
        r@ == (ResponseView {
            status: 409,
            headers: seq![("Stream-Closed"@, "true"@), ("Stream-Next-Offset"@, next_offset@)],
            body: encode_utf8("Stream is closed"@),
        }),
{
    let mut headers: Vec<(String, String)> = Vec::new();
    headers.push(header(STREAM_CLOSED, flag_value(true)));
    let off = offset_value(next_offset);
    headers.push(header(STREAM_NEXT_OFFSET, off.as_str()));
    let r = ResponseParts { status: 409, headers, body: text_body("Stream is closed") };
    assert(r@.headers =~= seq![("Stream-Closed"@, "true"@), ("Stream-Next-Offset"@, next_offset@)]);
    r
}

/// The answer to a fenced producer epoch: 403 with the current epoch.
pub fn epoch_fenced_response(current: u64) -> (r: ResponseParts)
    ensures
        r@ == (ResponseView {
            status: 403,
            headers: seq![("Producer-Epoch"@, decimal_text(current as nat))],
            body: encode_utf8("Producer epoch fenced"@),
        }),
{
    let mut headers: Vec<(String, String)> = Vec::new();
    let e = number_value(current);
    headers.push(header(PRODUCER_EPOCH, e.as_str()));
    let r = ResponseParts { status: 403, headers, body: text_body("Producer epoch fenced") };
    assert(r@.headers =~= seq![("Producer-Epoch"@, decimal_text(current as nat))]);
    r
}

/// The answer to a producer sequence gap: 409 with the expected and the
/// received sequence numbers.
pub fn sequence_gap_response(expected: u64, actual: u64) -> (r: ResponseParts)
    ensures
        r@ == (ResponseView {
            status: 409,
            headers: seq![
                ("Producer-Expected-Seq"@, decimal_text(expected as nat)),
                ("Producer-Received-Seq"@, decimal_text(actual as nat)),
            ],
            body: encode_utf8("Producer sequence gap"@),
        }),
{
    let mut headers: Vec<(String, String)> = Vec::new();
    let e = number_value(expected);
    headers.push(header(PRODUCER_EXPECTED_SEQ, e.as_str()));
    let a = number_value(actual);
    headers.push(header(PRODUCER_RECEIVED_SEQ, a.as_str()));
    let r = ResponseParts { status: 409, headers, body: text_body("Producer sequence gap") };
    assert(r@.headers =~= seq![
        ("Producer-Expected-Seq"@, decimal_text(expected as nat)),
        ("Producer-Received-Seq"@, decimal_text(actual as nat)),
    ]);
    r
}

/// How a failed append is answered.
#[derive(Debug)]
pub enum AppendFailure {
    /// The stream is closed: answer 409 with its next offset
    /// (`stream_closed_response`), which the caller looks up.
    Closed,
    /// Answer with this response.
    Respond(ResponseParts),
    /// Answer with the error's own status.
    Fail(Error),
}

/// How a failed producer append is answered: a closed stream, a fenced
/// epoch and a sequence gap have answers of their own; other errors stand.
pub fn producer_failure(e: Error) -> (f: AppendFailure)
    ensures
        match e@ {
            ErrorView::StreamClosed => f is Closed,
            ErrorView::EpochFenced { current, .. } => f matches AppendFailure::Respond(r) && r@
                == (ResponseView {
                status: 403,
                headers: seq![("Producer-Epoch"@, decimal_text(current as nat))],
                body: encode_utf8("Producer epoch fenced"@),
            }),
            ErrorView::SequenceGap { expected, actual } => f matches AppendFailure::Respond(r)
                && r@ == (ResponseView {
                status: 409,
                headers: seq![
                    ("Producer-Expected-Seq"@, decimal_text(expected as nat)),
                    ("Producer-Received-Seq"@, decimal_text(actual as nat)),
                ],
                body: encode_utf8("Producer sequence gap"@),
            }),
            _ => f matches AppendFailure::Fail(g) && g@ == e@,
        },
{
    match e {
        Error::StreamClosed => AppendFailure::Closed,
        Error::EpochFenced { current, .. } => AppendFailure::Respond(epoch_fenced_response(current)),
        Error::SequenceGap { expected, actual } => AppendFailure::Respond(
            sequence_gap_response(expected, actual),
        ),
        other => AppendFailure::Fail(other),
    }
}

/// How a failed append without a producer is answered: a closed stream has
/// an answer of its own; other errors stand.
pub fn append_failure(e: Error) -> (f: AppendFailure)
    ensures
        match e@ {
            ErrorView::StreamClosed => f is Closed,
            _ => f matches AppendFailure::Fail(g) && g@ == e@,
        },
{
    match e {
        Error::StreamClosed => AppendFailure::Closed,
        other => AppendFailure::Fail(other),
    }
}

/// What an append without a producer does once its messages were stored
/// (or, with no messages, the stream's next offset was looked up).
#[derive(Debug)]
pub enum PlainAppendStep {
    /// Close the stream, then answer `append_response(offset, true)`.
    CloseThenAnswer(Offset),
    /// Answer with this response.
    Answer(ResponseParts),
    /// The store refused the append: answer as the failure says.
    Failed(AppendFailure),
}

/// The step after storing a plain append: a refused store is answered as
/// `append_failure` says and the stream stays open; a stored append that
/// also asks to close the stream closes it before answering with
/// `Stream-Closed: true`; any other stored append is answered 204 with its
/// next offset.
pub fn plain_append_step(stored: Result<Offset, Error>, should_close: bool) -> (step: PlainAppendStep)
    ensures
        match stored {
            Err(e) => step matches PlainAppendStep::Failed(f) && match e@ {
                ErrorView::StreamClosed => f is Closed,
                _ => f matches AppendFailure::Fail(g) && g@ == e@,
            },
            Ok(o) => if should_close {
                step matches PlainAppendStep::CloseThenAnswer(c) && c@ == o@
            } else {
                step matches PlainAppendStep::Answer(r) && r@ == append_response_spec(o@, false)
            },
        },
{
    match stored {
        Err(e) => PlainAppendStep::Failed(append_failure(e)),
        Ok(o) => if should_close {
            PlainAppendStep::CloseThenAnswer(o)
        } else {
            PlainAppendStep::Answer(append_response(&o, false))
        },
    }
}

} // verus!
