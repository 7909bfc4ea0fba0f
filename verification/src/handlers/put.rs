//! Creating a stream (`PUT /v1/stream/{name}`).

use crate::handlers::{
    flag_value, header, offset_value, ResponseParts, ResponseView, STREAM_CLOSED,
    STREAM_NEXT_OFFSET,
};
use crate::protocol::error::{Error, ErrorView};
use crate::protocol::headers::{
    is_blank, is_true_flag, normalize_content_type, normalized_content_type, parse_bool,
    parse_expires_at, parse_ttl, rfc3339_instant, trim_start, ttl_value,
};
use crate::protocol::json_mode::{append_messages as json_messages, is_json_content_type, process_append};
use crate::protocol::offset::Offset;
use crate::storage::{ms_instant, CreateStreamResult, StreamConfig, StreamConfigView};
use crate::text::append_str;
use vstd::prelude::*;

verus! {

/// The content type a create request asks for: `application/octet-stream`
/// when the header is absent, else its normalised form; a header holding only
/// whitespace is refused.
pub open spec fn create_content_type_spec(ct: Option<Seq<char>>) -> Result<Seq<char>, ErrorView> {
    match ct {
        None => Ok("application/octet-stream"@),
        Some(c) => if trim_start(c).len() == 0 {
            Err(ErrorView::InvalidHeader { header: "Content-Type"@, reason: "empty value"@ })
        } else {
            Ok(normalized_content_type(c))
        },
    }
}

/// The content type of a create request.
pub fn create_content_type(content_type: Option<&str>) -> (r: Result<String, Error>)
    ensures
        match r {
            Ok(s) => create_content_type_spec(crate::storage::opt_text(content_type)) == Ok::<
                Seq<char>,
                ErrorView,
            >(s@),
            Err(e) => create_content_type_spec(crate::storage::opt_text(content_type)) == Err::<
                Seq<char>,
                ErrorView,
            >(e@),
        },
{
    match content_type {
        None => Ok("application/octet-stream".to_owned()),
        Some(ct) => {
            if is_blank(ct) {
                Err(
                    Error::InvalidHeader {
                        header: "Content-Type".to_owned(),
                        reason: "empty value".to_owned(),
                    },
                )
            } else {
                Ok(normalize_content_type(ct))
            }
        },
    }
}

/// The error for a malformed `Stream-TTL`.
pub open spec fn bad_ttl() -> ErrorView {
    ErrorView::InvalidHeader { header: "Stream-TTL"@, reason: "invalid TTL value"@ }
}

/// The error for a malformed `Stream-Expires-At`.
pub open spec fn bad_expires_at() -> ErrorView {
    ErrorView::InvalidHeader { header: "Stream-Expires-At"@, reason: "invalid RFC 3339 timestamp"@ }
}

/// Whether a TTL, counted from `now_ms`, gives an expiry that fits in an `i64`
/// of milliseconds.
pub open spec fn ttl_fits(ttl: Option<Seq<char>>, now_ms: i64) -> bool {
    match ttl {
        Some(t) => match ttl_value(t) {
            Some(secs) => now_ms + secs * 1000 <= i64::MAX,
            None => true,
        },
        None => true,
    }
}

/// Whether a create request's TTL, counted from `now_ms`, gives an expiry that
/// fits in milliseconds; a malformed TTL is left to `create_config` to refuse.
pub fn ttl_in_range(ttl: Option<&str>, now_ms: i64) -> (b: bool)
    ensures
        b == ttl_fits(crate::storage::opt_text(ttl), now_ms),
{
    match ttl {
        None => true,
        Some(t) => match parse_ttl(t) {
            Err(_) => true,
            Ok(secs) => {
                let limit: i128 = (i64::MAX as i128) - (now_ms as i128);
                (secs as i128) * 1000 <= limit
            },
        },
    }
}

/// The instant `ms` milliseconds after the Unix epoch, as seconds and
/// nanoseconds past them.
fn instant_of_millis(ms: i64) -> (t: (i64, u32))
    ensures
        t == ms_instant(ms as int),
{
    let secs: i64 = match ms.checked_div_euclid(1000) {
        Some(q) => q,
        None => 0,
    };
    let rest: i64 = match ms.checked_rem_euclid(1000) {
        Some(r) => r,
        None => 0,
    };
    assert(0 <= rest < 1000);
    let nanos: u32 = (rest as u32) * 1_000_000;
    (secs, nanos)
}

/// The configuration a create request asks for, at wall-clock time `now_ms`:
/// a TTL is checked first, then an absolute expiry, and the two together are
/// refused; a TTL sets the expiry `ttl` seconds after `now_ms`; the
/// `Stream-Closed` flag marks the stream created closed.
pub open spec fn create_config_spec(
    content_type: Seq<char>,
    ttl: Option<Seq<char>>,
    expires_at: Option<Seq<char>>,
    closed: Option<Seq<char>>,
    now_ms: i64,
) -> Result<StreamConfigView, ErrorView> {
    let created_closed = closed matches Some(c) && is_true_flag(c);
    if ttl matches Some(t) && ttl_value(t) is None {
        Err(bad_ttl())
    } else if expires_at matches Some(e) && rfc3339_instant(e) is None {
        Err(bad_expires_at())
    } else if ttl is Some && expires_at is Some {
        Err(ErrorView::ConflictingExpiration)
    } else if ttl is Some {
        let secs = ttl_value(ttl->0)->0;
        Ok(
            StreamConfigView {
                content_type,
                ttl_seconds: Some(secs),
                expires_at: Some(ms_instant(now_ms + secs * 1000)),
                created_closed,
            },
        )
    } else if expires_at is Some {
        Ok(
            StreamConfigView {
                content_type,
                ttl_seconds: None,
                expires_at: Some(rfc3339_instant(expires_at->0)->0),
                created_closed,
            },
        )
    } else {
        Ok(StreamConfigView { content_type, ttl_seconds: None, expires_at: None, created_closed })
    }
}

/// Builds the configuration of a create request from its headers.
pub fn create_config(
    content_type: String,
    ttl: Option<&str>,
    expires_at: Option<&str>,
    closed: Option<&str>,
    now_ms: i64,
) -> (r: Result<StreamConfig, Error>)
    requires
        ttl_fits(crate::storage::opt_text(ttl), now_ms),
    ensures
        match r {
            Ok(c) => create_config_spec(
                content_type@,
                crate::storage::opt_text(ttl),
                crate::storage::opt_text(expires_at),
                crate::storage::opt_text(closed),
                now_ms,
            ) == Ok::<StreamConfigView, ErrorView>(c@),
            Err(e) => create_config_spec(
                content_type@,
                crate::storage::opt_text(ttl),
                crate::storage::opt_text(expires_at),
                crate::storage::opt_text(closed),
                now_ms,
            ) == Err::<StreamConfigView, ErrorView>(e@),
        },
{
    let ttl_seconds = match ttl {
        Some(t) => match parse_ttl(t) {
            Ok(secs) => Some(secs),
            Err(e) => {
                return Err(e);
            },
        },
        None => None,
    };
    let expires = match expires_at {
        Some(v) => match parse_expires_at(v) {
            Ok(t) => Some(t),
            Err(e) => {
                return Err(e);
            },
        },
        None => None,
    };
    if ttl_seconds.is_some() && expires.is_some() {
        return Err(Error::ConflictingExpiration);
    }
    let created_closed = match closed {
        Some(c) => parse_bool(c),
        None => false,
    };
    let mut config = StreamConfig::new(content_type);
    match ttl_seconds {
        Some(secs) => {
            assert(now_ms + secs * 1000 <= i64::MAX);
            let at: i128 = (now_ms as i128) + (secs as i128) * 1000;
            config = config.with_expires_at(instant_of_millis(at as i64));
            config = config.with_ttl(secs);
        },
        None => {
            if let Some(t) = expires {
                config = config.with_expires_at(t);
            }
        },
    }
    if created_closed {
        config = config.with_created_closed(true);
    }
    Ok(config)
}

/// The messages a create request stores: none unless the stream is new and
/// the body is not empty; a JSON stream stores the body as an append would
/// (each element of an array on its own); any other stream stores the body as
/// one message.
pub open spec fn initial_messages_spec(is_new: bool, body: Seq<u8>, content_type: Seq<char>)
    -> Result<Seq<Seq<u8>>, ErrorView> {
    if !is_new || body.len() == 0 {
        Ok(seq![])
    } else if content_type == "application/json"@ {
        json_messages(body)
    } else {
        Ok(seq![body])
    }
}

/// The messages stored by a create request.
pub fn initial_messages(is_new: bool, body: Vec<u8>, content_type: &str) -> (r: Result<
    Vec<Vec<u8>>,
    Error,
>)
    ensures
        match r {
            Ok(msgs) => initial_messages_spec(is_new, body@, content_type@) == Ok::<
                Seq<Seq<u8>>,
                ErrorView,
            >(crate::protocol::json_mode::message_bytes(msgs@)),
            Err(e) => initial_messages_spec(is_new, body@, content_type@) == Err::<
                Seq<Seq<u8>>,
                ErrorView,
            >(e@),
        },
{
    if !is_new || body.len() == 0 {
        let msgs: Vec<Vec<u8>> = Vec::new();
        assert(crate::protocol::json_mode::message_bytes(msgs@) =~= seq![]);
        return Ok(msgs);
    }
    if is_json_content_type(content_type) {
        process_append(body.as_slice())
    } else {
        let mut msgs: Vec<Vec<u8>> = Vec::new();
        let ghost b = body@;
        msgs.push(body);
        assert(crate::protocol::json_mode::message_bytes(msgs@) =~= seq![b]);
        Ok(msgs)
    }
}

/// Whether a create request closes the stream after storing its initial
/// data: only a newly created stream, and only when created closed.
pub fn close_after_create(is_new: bool, created_closed: bool) -> (b: bool)
    ensures
        b == (is_new && created_closed),
{
    is_new && created_closed
}

/// What a create request does after the create call, in this order: store
/// `messages` when there are any, then close the stream when `close` is set,
/// then read the stream's metadata for the answer.
#[derive(Debug)]
pub struct CreateFollowUp {
    /// The initial messages to store.
    pub messages: Vec<Vec<u8>>,
    /// Whether to close the stream once they are stored.
    pub close: bool,
}

/// The steps that follow the create call: a newly created stream stores the
/// body as `initial_messages` says and is closed when it was created closed;
/// a stream that already existed stores nothing and is left as it is.
pub fn create_follow_up(
    created: CreateStreamResult,
    body: Vec<u8>,
    content_type: &str,
    created_closed: bool,
) -> (r: Result<CreateFollowUp, Error>)
    ensures
        ({
            let is_new = created == CreateStreamResult::Created;
            match r {
                Ok(f) => initial_messages_spec(is_new, body@, content_type@) == Ok::<
                    Seq<Seq<u8>>,
                    ErrorView,
                >(crate::protocol::json_mode::message_bytes(f.messages@)) && f.close == (is_new
                    && created_closed),
                Err(e) => initial_messages_spec(is_new, body@, content_type@) == Err::<
                    Seq<Seq<u8>>,
                    ErrorView,
                >(e@),
            }
        }),
{
    let is_new = match created {
        CreateStreamResult::Created => true,
        CreateStreamResult::AlreadyExists => false,
    };
    let messages = match initial_messages(is_new, body, content_type) {
        Ok(m) => m,
        Err(e) => {
            return Err(e);
        },
    };
    Ok(CreateFollowUp { messages, close: close_after_create(is_new, created_closed) })
}

/// The absolute URL of a stream: the scheme from `X-Forwarded-Proto` (else
/// `http`) and the authority from `Host` (else `localhost`).
pub open spec fn location_url(proto: Option<Seq<char>>, host: Option<Seq<char>>, name: Seq<char>)
    -> Seq<char> {
    let scheme = match proto {
        Some(p) => p,
        None => "http"@,
    };
    let authority = match host {
        Some(h) => h,
        None => "localhost"@,
    };
    scheme + "://"@ + authority + "/v1/stream/"@ + name
}

/// Builds the `Location` URL of a stream from the request's headers.
pub fn build_location_url(forwarded_proto: Option<&str>, host: Option<&str>, name: &str) -> (r:
    String)
    ensures
        r@ == location_url(
            crate::storage::opt_text(forwarded_proto),
            crate::storage::opt_text(host),
            name@,
        ),
{
    let mut url = match forwarded_proto {
        Some(p) => p.to_owned(),
        None => "http".to_owned(),
    };
    append_str(&mut url, "://");
    match host {
        Some(h) => append_str(&mut url, h),
        None => append_str(&mut url, "localhost"),
    }
    append_str(&mut url, "/v1/stream/");
    append_str(&mut url, name);
    url
}

/// The answer to a successful create: 201 for a new stream, 200 for an
/// idempotent repeat, with the content type, next offset, location and, for a
/// closed stream, `Stream-Closed: true`.
pub open spec fn create_response_spec(
    is_new: bool,
    content_type: Seq<char>,
    next_offset: Seq<char>,
    closed: bool,
    location: Seq<char>,
) -> ResponseView {
    let base = seq![
        ("content-type"@, content_type),
        ("Stream-Next-Offset"@, next_offset),
        ("location"@, location),
    ];
    ResponseView {
        status: if is_new {
            201
        } else {
            200
        },
        headers: if closed {
            base.push(("Stream-Closed"@, "true"@))
        } else {
            base
        },
        body: seq![],
    }
}

/// Builds the answer to a successful create.
pub fn create_response(
    is_new: bool,
    content_type: &str,
    next_offset: &Offset,
    closed: bool,
    location: &str,
) -> (r: ResponseParts)
    ensures
        r@ == create_response_spec(is_new, content_type@, next_offset@, closed, location@),
{
    let mut headers: Vec<(String, String)> = Vec::new();
    headers.push(header("content-type", content_type));
    let off = offset_value(next_offset);
    headers.push(header(STREAM_NEXT_OFFSET, off.as_str()));
    headers.push(header("location", location));
    if closed {
        headers.push(header(STREAM_CLOSED, flag_value(true)));
    }
    let status: u16 = if is_new {
        201
    } else {
        200
    };
    let r = ResponseParts { status, headers, body: Vec::new() };
    assert(r@.headers =~= create_response_spec(
        is_new,
        content_type@,
        next_offset@,
        closed,
        location@,
    ).headers);
    r
}

} // verus!
