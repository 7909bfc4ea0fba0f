//! Reading a stream (`GET /v1/stream/{name}`): catch-up and long-poll.

use crate::handlers::{
    flag_text, flag_value, header, offset_value, ResponseParts, ResponseView, STREAM_CLOSED,
    STREAM_CURSOR, STREAM_NEXT_OFFSET, STREAM_UP_TO_DATE,
};
use crate::protocol::error::{Error, ErrorView};
use crate::protocol::json_mode::{is_json_content_type, message_bytes, read_body, wrap_read};
use crate::protocol::offset::Offset;
use crate::storage::{opt_text, MessageView, ReadResult, ReadView};
use crate::text::{append_str, str_eq};
use vstd::prelude::*;

verus! {

/// The query parameters of a read.
#[derive(Debug)]
pub struct ReadQuery {
    /// Starting offset (`-1`, the start of the stream, when absent).
    pub offset: String,
    /// Live mode: `long-poll` for long-polling.
    pub live: Option<String>,
    /// The cursor a client echoes from an earlier long-poll. The server does
    /// not read it: it lets CDNs collapse identical polls.
    pub cursor: Option<String>,
}

/// The offset a read starts from when the query names none.
pub fn default_offset() -> (s: String)
    ensures
        s@ == "-1"@,
{
    "-1".to_owned()
}

/// What the `live` query parameter asks for: absent means catch-up,
/// `long-poll` means long-poll, anything else is refused.
pub open spec fn live_spec(live: Option<Seq<char>>) -> Result<bool, ErrorView> {
    match live {
        None => Ok(false),
        Some(l) => if l == "long-poll"@ {
            Ok(true)
        } else {
            Err(
                ErrorView::InvalidHeader {
                    header: "live"@,
                    reason: "unsupported live mode: "@ + l,
                },
            )
        },
    }
}

/// Checks the `live` query parameter; `Ok(true)` selects long-poll.
pub fn check_live(live: Option<&str>) -> (r: Result<bool, Error>)
    ensures
        match r {
            Ok(b) => live_spec(opt_text(live)) == Ok::<bool, ErrorView>(b),
            Err(e) => live_spec(opt_text(live)) == Err::<bool, ErrorView>(e@),
        },
{
    match live {
        None => Ok(false),
        Some(l) => {
            if str_eq(l, "long-poll") {
                Ok(true)
            } else {
                let mut reason = "unsupported live mode: ".to_owned();
                append_str(&mut reason, l);
                Err(Error::InvalidHeader { header: "live".to_owned(), reason })
            }
        },
    }
}

/// Whether a read ended at the tail of a closed stream.
pub open spec fn closed_at_tail(read: ReadView) -> bool {
    read.closed && read.at_tail
}

/// The entity tag of a read: `"{start}:{end}"`, with `:c` before the closing
/// quote when the read reached the tail of a closed stream.
pub open spec fn etag_spec(start_offset: Seq<char>, read: ReadView) -> Seq<char> {
    "\""@ + start_offset + ":"@ + read.next_offset + if closed_at_tail(read) {
        ":c\""@
    } else {
        "\""@
    }
}

/// For reads from the same offset, the entity tag tells apart where the reads
/// ended and whether they reached the tail of a closed stream: equal tags mean
/// equal next offsets and equal closed-at-tail flags. So a client's
/// `If-None-Match` is answered 304 only when nothing changed.
pub proof fn lemma_etag_identifies_read(start: Seq<char>, r1: ReadView, r2: ReadView)
    requires
        crate::protocol::offset::is_canonical_text(r1.next_offset),
        crate::protocol::offset::is_canonical_text(r2.next_offset),
        etag_spec(start, r1) == etag_spec(start, r2),
    ensures
        r1.next_offset == r2.next_offset,
        closed_at_tail(r1) == closed_at_tail(r2),
{
    let p = "\""@ + start + ":"@;
    let t1 = etag_spec(start, r1);
    let t2 = etag_spec(start, r2);
    let n = p.len();
    let suf1 = if closed_at_tail(r1) { ":c\""@ } else { "\""@ };
    let suf2 = if closed_at_tail(r2) { ":c\""@ } else { "\""@ };
    assert(t1 =~= p + (r1.next_offset + suf1));
    assert(t2 =~= p + (r2.next_offset + suf2));
    assert((p + (r1.next_offset + suf1)).subrange(n as int, t1.len() as int) =~= r1.next_offset + suf1);
    assert((p + (r2.next_offset + suf2)).subrange(n as int, t2.len() as int) =~= r2.next_offset + suf2);
    let q1 = r1.next_offset + suf1;
    let q2 = r2.next_offset + suf2;
    assert(q1 == q2);
    assert(q1.subrange(0, 33) =~= r1.next_offset);
    assert(q2.subrange(0, 33) =~= r2.next_offset);
    assert(q1.subrange(33, q1.len() as int) =~= suf1);
    assert(q2.subrange(33, q2.len() as int) =~= suf2);
    reveal_strlit(":c\"");
    reveal_strlit("\"");
    assert(suf1 == suf2);
}

/// Generates the `ETag` of a read from the offset the client asked for.
pub fn generate_etag(start_offset: &str, read_result: &ReadResult) -> (etag: String)
    ensures
        etag@ == etag_spec(start_offset@, read_result@),
{
    let mut etag = "\"".to_owned();
    append_str(&mut etag, start_offset);
    append_str(&mut etag, ":");
    append_str(&mut etag, read_result.next_offset.as_str());
    if read_result.closed && read_result.at_tail {
        append_str(&mut etag, ":c\"");
    } else {
        append_str(&mut etag, "\"");
    }
    etag
}

/// Whether the client's `If-None-Match` names the current entity tag.
pub fn etag_matches(if_none_match: Option<&str>, etag: &str) -> (b: bool)
    ensures
        b == (if_none_match matches Some(t) && t@ == etag@),
{
    match if_none_match {
        Some(t) => str_eq(t, etag),
        None => false,
    }
}

/// The answer to a read whose entity tag the client already has: 304 with the
/// next offset and `Stream-Up-To-Date: true`.
pub open spec fn not_modified_spec(read: ReadView) -> ResponseView {
    ResponseView {
        status: 304,
        headers: seq![("Stream-Next-Offset"@, read.next_offset), ("Stream-Up-To-Date"@, "true"@)],
        body: seq![],
    }
}

/// Builds the 304 answer to a read whose entity tag the client already has.
pub fn not_modified_response(read_result: &ReadResult) -> (r: ResponseParts)
    ensures
        r@ == not_modified_spec(read_result@),
{
    let mut headers: Vec<(String, String)> = Vec::new();
    let off = offset_value(&read_result.next_offset);
    headers.push(header(STREAM_NEXT_OFFSET, off.as_str()));
    headers.push(header(STREAM_UP_TO_DATE, flag_value(true)));
    let r = ResponseParts { status: 304, headers, body: Vec::new() };
    assert(r@.headers =~= seq![
        ("Stream-Next-Offset"@, read_result@.next_offset),
        ("Stream-Up-To-Date"@, "true"@),
    ]);
    r
}

/// The data of each message, in order.
pub open spec fn message_data(ms: Seq<MessageView>) -> Seq<Seq<u8>> {
    ms.map_values(|m: MessageView| m.data)
}

/// The data of all messages, one after another.
pub open spec fn concat_data(ms: Seq<MessageView>) -> Seq<u8>
    decreases ms.len(),
{
    if ms.len() == 0 {
        seq![]
    } else {
        concat_data(ms.drop_last()) + ms.last().data
    }
}

/// The body of a read: a JSON stream's messages wrapped in one array, any
/// other stream's messages concatenated.
pub open spec fn body_spec(read: ReadView, content_type: Seq<char>) -> Result<Seq<u8>, ErrorView> {
    if content_type == "application/json"@ {
        read_body(message_data(read.messages))
    } else {
        Ok(concat_data(read.messages))
    }
}

/// Builds the body of a read.
pub fn build_body(read_result: &ReadResult, content_type: &str) -> (r: Result<Vec<u8>, Error>)
    ensures
        match r {
            Ok(b) => body_spec(read_result@, content_type@) == Ok::<Seq<u8>, ErrorView>(b@),
            Err(e) => body_spec(read_result@, content_type@) == Err::<Seq<u8>, ErrorView>(e@),
        },
{
    let ms = &read_result.messages;
    let ghost views = read_result@.messages;
    if is_json_content_type(content_type) {
        let mut datas: Vec<Vec<u8>> = Vec::new();
        let mut i: usize = 0;
        while i < ms.len()
            invariant
                i <= ms@.len(),
                views == ms@.map_values(|m: crate::storage::Message| m@),
                datas@.len() == i,
                forall|j: int| 0 <= j < i ==> #[trigger] datas@[j]@ == views[j].data,
            decreases ms.len() - i,
        {
            let d = ms[i].data.clone();
            assert(d@ =~= ms@[i as int].data@);
            datas.push(d);
            i = i + 1;
        }
        assert(message_bytes(datas@) =~= message_data(views));
        wrap_read(datas.as_slice())
    } else {
        let mut body: Vec<u8> = Vec::new();
        let mut i: usize = 0;
        while i < ms.len()
            invariant
                i <= ms@.len(),
                views == ms@.map_values(|m: crate::storage::Message| m@),
                body@ == concat_data(views.subrange(0, i as int)),
            decreases ms.len() - i,
        {
            let data = &ms[i].data;
            let ghost before = body@;
            let mut j: usize = 0;
            while j < data.len()
                invariant
                    j <= data@.len(),
                    body@ == before + data@.subrange(0, j as int),
                decreases data.len() - j,
            {
                body.push(data[j]);
                assert(data@.subrange(0, j + 1) =~= data@.subrange(0, j as int).push(data@[j as int]));
                j = j + 1;
            }
            assert(data@.subrange(0, data@.len() as int) =~= data@);
            assert(views.subrange(0, i + 1).drop_last() =~= views.subrange(0, i as int));
            i = i + 1;
        }
        assert(views.subrange(0, ms@.len() as int) =~= views);
        Ok(body)
    }
}

/// The headers of a data response: content type, next offset, whether the
/// reader is up to date, the entity tag, `cache-control: no-store`,
/// `Stream-Closed: true` at the tail of a closed stream, and the cursor in
/// long-poll mode.
pub open spec fn data_headers_spec(
    read: ReadView,
    content_type: Seq<char>,
    etag: Seq<char>,
    cursor: Option<Seq<char>>,
) -> Seq<(Seq<char>, Seq<char>)> {
    let base = seq![
        ("content-type"@, content_type),
        ("Stream-Next-Offset"@, read.next_offset),
        ("Stream-Up-To-Date"@, flag_text(read.at_tail)),
        ("etag"@, etag),
        ("cache-control"@, "no-store"@),
    ];
    let with_closed = if closed_at_tail(read) {
        base.push(("Stream-Closed"@, "true"@))
    } else {
        base
    };
    match cursor {
        Some(c) => with_closed.push(("Stream-Cursor"@, c)),
        None => with_closed,
    }
}

/// Builds the 200 answer to a read that returns data.
pub fn data_response(
    read_result: &ReadResult,
    content_type: &str,
    etag: &str,
    cursor: Option<&str>,
) -> (r: Result<ResponseParts, Error>)
    ensures
        match r {
            Ok(resp) => body_spec(read_result@, content_type@) == Ok::<Seq<u8>, ErrorView>(
                resp@.body,
            ) && resp@.status == 200 && resp@.headers == data_headers_spec(
                read_result@,
                content_type@,
                etag@,
                opt_text(cursor),
            ),
            Err(e) => body_spec(read_result@, content_type@) == Err::<Seq<u8>, ErrorView>(e@),
        },
{
    let body = match build_body(read_result, content_type) {
        Ok(b) => b,
        Err(e) => {
            return Err(e);
        },
    };
    let mut headers: Vec<(String, String)> = Vec::new();
    headers.push(header("content-type", content_type));
    let off = offset_value(&read_result.next_offset);
    headers.push(header(STREAM_NEXT_OFFSET, off.as_str()));
    headers.push(header(STREAM_UP_TO_DATE, flag_value(read_result.at_tail)));
    headers.push(header("etag", etag));
    headers.push(header("cache-control", "no-store"));
    if read_result.closed && read_result.at_tail {
        headers.push(header(STREAM_CLOSED, flag_value(true)));
    }
    if let Some(c) = cursor {
        headers.push(header(STREAM_CURSOR, c));
    }
    let r = ResponseParts { status: 200, headers, body };
    assert(r@.headers =~= data_headers_spec(read_result@, content_type@, etag@, opt_text(cursor)));
    Ok(r)
}

/// Answers a catch-up read of `read_result`, taken from the offset text
/// `start_offset`: 304 when the client's `If-None-Match` names the read's
/// entity tag, else 200 with the data, that tag and `cursor` when given.
pub fn catch_up_response(
    read_result: &ReadResult,
    start_offset: &str,
    content_type: &str,
    if_none_match: Option<&str>,
    cursor: Option<&str>,
) -> (r: Result<ResponseParts, Error>)
    ensures
        ({
            let etag = etag_spec(start_offset@, read_result@);
            if if_none_match matches Some(t) && t@ == etag {
                r matches Ok(resp) && resp@ == not_modified_spec(read_result@)
            } else {
                match r {
                    Ok(resp) => body_spec(read_result@, content_type@) == Ok::<Seq<u8>, ErrorView>(
                        resp@.body,
                    ) && resp@.status == 200 && resp@.headers == data_headers_spec(
                        read_result@,
                        content_type@,
                        etag,
                        opt_text(cursor),
                    ),
                    Err(e) => body_spec(read_result@, content_type@) == Err::<Seq<u8>, ErrorView>(
                        e@,
                    ),
                }
            }
        }),
{
    let etag = generate_etag(start_offset, read_result);
    if etag_matches(if_none_match, etag.as_str()) {
        return Ok(not_modified_response(read_result));
    }
    data_response(read_result, content_type, etag.as_str(), cursor)
}

/// The 204 answer of a long-poll that found no new data: the next offset,
/// `Stream-Up-To-Date: true`, `Stream-Closed: true` when the stream is closed,
/// and a cursor.
pub open spec fn no_content_headers_spec(next_offset: Seq<char>, is_closed: bool, cursor: Seq<char>)
    -> Seq<(Seq<char>, Seq<char>)> {
    let base = seq![("Stream-Next-Offset"@, next_offset), ("Stream-Up-To-Date"@, "true"@)];
    let with_closed = if is_closed {
        base.push(("Stream-Closed"@, "true"@))
    } else {
        base
    };
    with_closed.push(("Stream-Cursor"@, cursor))
}

/// Builds the 204 answer of a long-poll without new data.
pub fn no_content_response(next_offset: &Offset, is_closed: bool, cursor: &str) -> (r:
    ResponseParts)
    ensures
        r@ == (ResponseView {
            status: 204,
            headers: no_content_headers_spec(next_offset@, is_closed, cursor@),
            body: seq![],
        }),
{
    let mut headers: Vec<(String, String)> = Vec::new();
    let off = offset_value(next_offset);
    headers.push(header(STREAM_NEXT_OFFSET, off.as_str()));
    headers.push(header(STREAM_UP_TO_DATE, flag_value(true)));
    if is_closed {
        headers.push(header(STREAM_CLOSED, flag_value(true)));
    }
    headers.push(header(STREAM_CURSOR, cursor));
    let r = ResponseParts { status: 204, headers, body: Vec::new() };
    assert(r@.headers =~= no_content_headers_spec(next_offset@, is_closed, cursor@));
    r
}

/// What a long-poll does after its first read.
#[derive(Debug, Clone, Copy, PartialEq, Eq, Structural)]
pub enum LongPollStep {
    /// Data is available: answer with it at once.
    Respond,
    /// The reader is at the tail of a closed stream: answer 204 at once.
    Closed,
    /// The reader is at the tail of an open stream: wait for new data.
    Wait,
}

/// The step of a long-poll after its first read: data first, then a closed
/// tail, else waiting.
pub open spec fn long_poll_step_spec(read: ReadView) -> LongPollStep {
    if read.messages.len() > 0 {
        LongPollStep::Respond
    } else if closed_at_tail(read) {
        LongPollStep::Closed
    } else {
        LongPollStep::Wait
    }
}

/// Decides the step of a long-poll after its first read.
pub fn long_poll_step(read_result: &ReadResult) -> (s: LongPollStep)
    ensures
        s == long_poll_step_spec(read_result@),
{
    if read_result.messages.len() > 0 {
        LongPollStep::Respond
    } else if read_result.closed && read_result.at_tail {
        LongPollStep::Closed
    } else {
        LongPollStep::Wait
    }
}

/// Whether a read ended at the tail of a closed stream.
pub fn is_closed_at_tail(read_result: &ReadResult) -> (b: bool)
    ensures
        b == closed_at_tail(read_result@),
{
    read_result.closed && read_result.at_tail
}

} // verus!
