//! The decisions of the HTTP handlers: what a request asks for, and what each
//! outcome is answered with. The server performs the I/O around them.

pub mod delete;
pub mod get;
pub mod head;
pub mod post;
pub mod put;

use crate::protocol::cursor::{decimal_string, decimal_text};
use crate::protocol::offset::Offset;
use vstd::prelude::*;

verus! {

/// `Stream-Next-Offset`: where the next read continues.
pub const STREAM_NEXT_OFFSET: &'static str = "Stream-Next-Offset";

/// `Stream-Up-To-Date`: whether the reader has caught up.
pub const STREAM_UP_TO_DATE: &'static str = "Stream-Up-To-Date";

/// `Stream-Closed`: the stream accepts no more appends.
pub const STREAM_CLOSED: &'static str = "Stream-Closed";

/// `Stream-Cursor`: the long-poll cursor.
pub const STREAM_CURSOR: &'static str = "Stream-Cursor";

/// `Producer-Epoch`: the epoch of an idempotent producer.
pub const PRODUCER_EPOCH: &'static str = "Producer-Epoch";

/// `Producer-Seq`: the sequence number of an idempotent producer.
pub const PRODUCER_SEQ: &'static str = "Producer-Seq";

/// `Producer-Expected-Seq`: the sequence number the server expected.
pub const PRODUCER_EXPECTED_SEQ: &'static str = "Producer-Expected-Seq";

/// `Producer-Received-Seq`: the sequence number the server received.
pub const PRODUCER_RECEIVED_SEQ: &'static str = "Producer-Received-Seq";

/// The parts of an HTTP response: status, headers in order, body.
#[derive(Debug)]
pub struct ResponseParts {
    pub status: u16,
    pub headers: Vec<(String, String)>,
    pub body: Vec<u8>,
}

/// The contents of a [`ResponseParts`].
pub struct ResponseView {
    pub status: u16,
    pub headers: Seq<(Seq<char>, Seq<char>)>,
    pub body: Seq<u8>,
}

/// The text of each header.
pub open spec fn header_texts(hs: Seq<(String, String)>) -> Seq<(Seq<char>, Seq<char>)> {
    hs.map_values(|h: (String, String)| (h.0@, h.1@))
}

impl View for ResponseParts {
    type V = ResponseView;

    open spec fn view(&self) -> ResponseView {
        ResponseView { status: self.status, headers: header_texts(self.headers@), body: self.body@ }
    }
}

/// A header as a pair of strings.
pub fn header(name: &str, value: &str) -> (h: (String, String))
    ensures
        h.0@ == name@,
        h.1@ == value@,
{
    (name.to_owned(), value.to_owned())
}

/// The text of a flag header value.
pub open spec fn flag_text(b: bool) -> Seq<char> {
    if b {
        "true"@
    } else {
        "false"@
    }
}

/// `"true"` or `"false"`.
pub fn flag_value(b: bool) -> (s: &'static str)
    ensures
        s@ == flag_text(b),
{
    if b {
        "true"
    } else {
        "false"
    }
}

/// The decimal text of an integer header value.
pub fn number_value(n: u64) -> (s: String)
    ensures
        s@ == decimal_text(n as nat),
{
    decimal_string(n as u128)
}

/// The text of an offset header value.
pub fn offset_value(o: &Offset) -> (s: String)
    ensures
        s@ == o@,
{
    o.as_str().to_owned()
}

/// The security headers added to every protocol response:
/// `X-Content-Type-Options: nosniff` against MIME sniffing and
/// `Cross-Origin-Resource-Policy: cross-origin` to allow cross-origin reads.
pub fn security_headers() -> (hs: Vec<(String, String)>)
    ensures
        header_texts(hs@) == seq![
            ("X-Content-Type-Options"@, "nosniff"@),
            ("Cross-Origin-Resource-Policy"@, "cross-origin"@),
        ],
{
    let mut hs: Vec<(String, String)> = Vec::new();
    hs.push(header("X-Content-Type-Options", "nosniff"));
    hs.push(header("Cross-Origin-Resource-Policy", "cross-origin"));
    assert(header_texts(hs@) =~= seq![
        ("X-Content-Type-Options"@, "nosniff"@),
        ("Cross-Origin-Resource-Policy"@, "cross-origin"@),
    ]);
    hs
}

} // verus!
