//! Errors of the durable streams protocol.

use vstd::prelude::*;

verus! {

/// Every way in which a protocol or storage operation can be refused.
#[derive(Debug, Clone, PartialEq, Eq)]
pub enum Error {
    /// The named stream does not exist.
    NotFound(String),
    /// An offset string is not in canonical form.
    InvalidOffset(String),
    /// A JSON body or stored JSON message does not parse.
    InvalidJson(String),
    /// A stream exists under the name with a different configuration.
    ConfigMismatch,
    /// The stream is closed to further appends.
    StreamClosed,
    /// The stream has passed its expiry time.
    StreamExpired,
    /// An append's content type differs from the stream's.
    ContentTypeMismatch { stream: String, request: String },
    /// The store-wide byte budget would be exceeded.
    MemoryLimitExceeded,
    /// The per-stream byte budget would be exceeded.
    StreamSizeLimitExceeded,
    /// A `Stream-Seq` value does not sort after the last one accepted.
    SeqOrderingViolation { last: String, given: String },
    /// A producer epoch older than the current one was presented.
    EpochFenced { current: u64, received: u64 },
    /// A producer sequence number skips ahead of the next expected one.
    SequenceGap { expected: u64, actual: u64 },
    /// A producer request that cannot be reconciled with its recorded state.
    InvalidProducerState(String),
    /// A request header (or body) is malformed.
    InvalidHeader { header: String, reason: String },
    /// Both a TTL and an absolute expiry were requested.
    ConflictingExpiration,
    /// A storage back end failed.
    Storage(String),
}

/// The contents of an [`Error`], with its strings taken as character sequences.
pub enum ErrorView {
    NotFound(Seq<char>),
    InvalidOffset(Seq<char>),
    InvalidJson(Seq<char>),
    ConfigMismatch,
    StreamClosed,
    StreamExpired,
    ContentTypeMismatch { stream: Seq<char>, request: Seq<char> },
    MemoryLimitExceeded,
    StreamSizeLimitExceeded,
    SeqOrderingViolation { last: Seq<char>, given: Seq<char> },
    EpochFenced { current: u64, received: u64 },
    SequenceGap { expected: u64, actual: u64 },
    InvalidProducerState(Seq<char>),
    InvalidHeader { header: Seq<char>, reason: Seq<char> },
    ConflictingExpiration,
    Storage(Seq<char>),
}

impl View for Error {
    type V = ErrorView;

    open spec fn view(&self) -> ErrorView {
        match self {
            Error::NotFound(s) => ErrorView::NotFound(s@),
            Error::InvalidOffset(s) => ErrorView::InvalidOffset(s@),
            Error::InvalidJson(s) => ErrorView::InvalidJson(s@),
            Error::ConfigMismatch => ErrorView::ConfigMismatch,
            Error::StreamClosed => ErrorView::StreamClosed,
            Error::StreamExpired => ErrorView::StreamExpired,
            Error::ContentTypeMismatch { stream, request } => ErrorView::ContentTypeMismatch {
                stream: stream@,
                request: request@,
            },
            Error::MemoryLimitExceeded => ErrorView::MemoryLimitExceeded,
            Error::StreamSizeLimitExceeded => ErrorView::StreamSizeLimitExceeded,
            Error::SeqOrderingViolation { last, given } => ErrorView::SeqOrderingViolation {
                last: last@,
                given: given@,
            },
            Error::EpochFenced { current, received } => ErrorView::EpochFenced {
                current: *current,
                received: *received,
            },
            Error::SequenceGap { expected, actual } => ErrorView::SequenceGap {
                expected: *expected,
                actual: *actual,
            },
            Error::InvalidProducerState(s) => ErrorView::InvalidProducerState(s@),
            Error::InvalidHeader { header, reason } => ErrorView::InvalidHeader {
                header: header@,
                reason: reason@,
            },
            Error::ConflictingExpiration => ErrorView::ConflictingExpiration,
            Error::Storage(s) => ErrorView::Storage(s@),
        }
    }
}

/// The HTTP status that answers an error: 404 for a stream that is missing
/// or expired, 400 for a malformed request, 403 for a fenced producer epoch,
/// 409 for a conflict with the stream's state, 413 for an exceeded byte budget,
/// 500 for a failing storage back end.
pub open spec fn status_of(e: ErrorView) -> u16 {
    match e {
        ErrorView::NotFound(_) | ErrorView::StreamExpired => 404,
        ErrorView::InvalidOffset(_) | ErrorView::InvalidJson(_) | ErrorView::InvalidProducerState(_)
        | ErrorView::InvalidHeader { .. } | ErrorView::ConflictingExpiration => 400,
        ErrorView::EpochFenced { .. } => 403,
        ErrorView::ConfigMismatch | ErrorView::StreamClosed | ErrorView::ContentTypeMismatch { .. }
        | ErrorView::SeqOrderingViolation { .. } | ErrorView::SequenceGap { .. } => 409,
        ErrorView::MemoryLimitExceeded | ErrorView::StreamSizeLimitExceeded => 413,
        ErrorView::Storage(_) => 500,
    }
}

impl Error {
    /// The HTTP status of this error.
    pub fn status(&self) -> (s: u16)
        ensures
            s == status_of(self@),
    {
        match self {
            Error::NotFound(_) | Error::StreamExpired => 404,
            Error::InvalidOffset(_) | Error::InvalidJson(_) | Error::InvalidProducerState(_)
            | Error::InvalidHeader { .. } | Error::ConflictingExpiration => 400,
            Error::EpochFenced { .. } => 403,
            Error::ConfigMismatch | Error::StreamClosed | Error::ContentTypeMismatch { .. }
            | Error::SeqOrderingViolation { .. } | Error::SequenceGap { .. } => 409,
            Error::MemoryLimitExceeded | Error::StreamSizeLimitExceeded => 413,
            Error::Storage(_) => 500,
        }
    }
}

} // verus!
