//! Stream storage: the values that storage operations take and return, and
//! the rules every back end applies to an append (content type, stream
//! sequence, idempotent producers, expiry).

pub mod laws;
pub mod log_index;
pub mod producers;
pub mod memory;
pub mod records;
pub mod file_layout;
pub mod file_stream;

use crate::protocol::error::{Error, ErrorView};
use crate::protocol::headers::{normalize_content_type, normalized_content_type};
use crate::protocol::offset::{canonical_text, Offset};
use crate::text::{chars_of, str_eq};
use vstd::prelude::*;

verus! {

/// How long (in milliseconds) a producer's state is kept after its last
/// accepted append: seven days.
pub const PRODUCER_STATE_TTL_MS: i64 = 604800000;

/// Stream configuration, fixed when the stream is created.
///
/// Two configurations are the same for an idempotent create when content
/// type, TTL and the created-closed flag agree, and, when no TTL is set, the
/// absolute expiry agrees too (a TTL-derived expiry drifts with the clock).
#[derive(Debug)]
pub struct StreamConfig {
    /// Content-Type header value (normalized, lowercase).
    pub content_type: String,
    /// Time-to-live in seconds (optional).
    pub ttl_seconds: Option<u64>,
    /// Absolute expiration time: seconds since the Unix epoch and nanoseconds
    /// past that second.
    pub expires_at: Option<(i64, u32)>,
    /// Whether the stream was created closed.
    pub created_closed: bool,
}

/// The contents of a [`StreamConfig`].
pub struct StreamConfigView {
    pub content_type: Seq<char>,
    pub ttl_seconds: Option<u64>,
    pub expires_at: Option<(i64, u32)>,
    pub created_closed: bool,
}

impl View for StreamConfig {
    type V = StreamConfigView;

    open spec fn view(&self) -> StreamConfigView {
        StreamConfigView {
            content_type: self.content_type@,
            ttl_seconds: self.ttl_seconds,
            expires_at: self.expires_at,
            created_closed: self.created_closed,
        }
    }
}

/// Whether two configurations count as the same for an idempotent create.
pub open spec fn config_equiv(a: StreamConfigView, b: StreamConfigView) -> bool {
    &&& a.content_type == b.content_type
    &&& a.ttl_seconds == b.ttl_seconds
    &&& a.created_closed == b.created_closed
    &&& (a.ttl_seconds is Some || a.expires_at == b.expires_at)
}

/// An instant (seconds since the Unix epoch and nanoseconds past them) in
/// nanoseconds since the epoch.
pub open spec fn instant_nanos(t: (i64, u32)) -> int {
    t.0 * 1_000_000_000 + t.1
}

/// The instant `ms` milliseconds after the Unix epoch, as seconds and
/// nanoseconds past them.
pub open spec fn ms_instant(ms: int) -> (i64, u32) {
    ((ms / 1000) as i64, ((ms % 1000) * 1_000_000) as u32)
}

/// Whether a stream with this configuration has expired at time `now` (ms):
/// whether `now` has reached its expiry.
pub open spec fn config_expired(c: StreamConfigView, now: i64) -> bool {
    match c.expires_at {
        Some(t) => now * 1_000_000 >= instant_nanos(t),
        None => false,
    }
}

impl PartialEq for StreamConfig {
    fn eq(&self, other: &StreamConfig) -> (r: bool) {
        let same_ct = str_eq(self.content_type.as_str(), other.content_type.as_str());
        let same_ttl = match (self.ttl_seconds, other.ttl_seconds) {
            (Some(a), Some(b)) => a == b,
            (None, None) => true,
            _ => false,
        };
        let same_expiry = if self.ttl_seconds.is_some() {
            true
        } else {
            match (self.expires_at, other.expires_at) {
                (Some(a), Some(b)) => a.0 == b.0 && a.1 == b.1,
                (None, None) => true,
                _ => false,
            }
        };
        same_ct && same_ttl && self.created_closed == other.created_closed && same_expiry
    }
}

impl vstd::std_specs::cmp::PartialEqSpecImpl for StreamConfig {
    open spec fn obeys_eq_spec() -> bool {
        true
    }

    open spec fn eq_spec(&self, other: &StreamConfig) -> bool {
        config_equiv(self@, other@)
    }
}

impl Clone for StreamConfig {
    fn clone(&self) -> (c: StreamConfig)
        ensures
            c@ == self@,
    {
        StreamConfig {
            content_type: self.content_type.clone(),
            ttl_seconds: self.ttl_seconds,
            expires_at: self.expires_at,
            created_closed: self.created_closed,
        }
    }
}

impl StreamConfig {
    /// A configuration with the given content type and nothing else set.
    pub fn new(content_type: String) -> (c: StreamConfig)
        ensures
            c@ == (StreamConfigView {
                content_type: content_type@,
                ttl_seconds: None,
                expires_at: None,
                created_closed: false,
            }),
    {
        StreamConfig { content_type, ttl_seconds: None, expires_at: None, created_closed: false }
    }

    /// Sets the time-to-live in seconds.
    pub fn with_ttl(self, ttl_seconds: u64) -> (c: StreamConfig)
        ensures
            c@ == (StreamConfigView { ttl_seconds: Some(ttl_seconds), ..self@ }),
    {
        let mut c = self;
        c.ttl_seconds = Some(ttl_seconds);
        c
    }

    /// Sets the absolute expiry (seconds since the Unix epoch and nanoseconds
    /// past them).
    pub fn with_expires_at(self, expires_at: (i64, u32)) -> (c: StreamConfig)
        ensures
            c@ == (StreamConfigView { expires_at: Some(expires_at), ..self@ }),
    {
        let mut c = self;
        c.expires_at = Some(expires_at);
        c
    }

    /// Sets the created-closed flag.
    pub fn with_created_closed(self, created_closed: bool) -> (c: StreamConfig)
        ensures
            c@ == (StreamConfigView { created_closed, ..self@ }),
    {
        let mut c = self;
        c.created_closed = created_closed;
        c
    }

    /// Whether the stream has expired at time `now` (ms since the epoch).
    pub fn is_expired_at(&self, now: i64) -> (b: bool)
        ensures
            b == config_expired(self@, now),
    {
        match self.expires_at {
            Some(t) => (now as i128) * 1_000_000 >= (t.0 as i128) * 1_000_000_000 + (t.1 as i128),
            None => false,
        }
    }
}

/// A message in a stream.
#[derive(Debug)]
pub struct Message {
    /// Message offset (unique identifier within stream).
    pub offset: Offset,
    /// Message data.
    pub data: Vec<u8>,
    /// Byte length (for memory tracking).
    pub byte_len: u64,
}

/// The contents of a [`Message`].
pub struct MessageView {
    pub offset: Seq<char>,
    pub data: Seq<u8>,
    pub byte_len: u64,
}

impl View for Message {
    type V = MessageView;

    open spec fn view(&self) -> MessageView {
        MessageView { offset: self.offset@, data: self.data@, byte_len: self.byte_len }
    }
}

impl Message {
    /// A message with its byte length taken from the data.
    pub fn new(offset: Offset, data: Vec<u8>) -> (m: Message)
        ensures
            m.offset@ == offset@,
            m.data@ == data@,
            m.byte_len == data@.len(),
    {
        let byte_len = data.len() as u64;
        Message { offset, data, byte_len }
    }
}

impl Clone for Message {
    fn clone(&self) -> (m: Message)
        ensures
            m@ == self@,
    {
        let data = self.data.clone();
        assert(data@ =~= self.data@);
        Message { offset: self.offset.clone(), data, byte_len: self.byte_len }
    }
}

/// Read result from storage.
#[derive(Debug)]
pub struct ReadResult {
    /// Messages read.
    pub messages: Vec<Message>,
    /// Next offset to read from (for resumption).
    pub next_offset: Offset,
    /// Whether we're at the end of the stream.
    pub at_tail: bool,
    /// Whether the stream is closed.
    pub closed: bool,
}

/// The contents of a [`ReadResult`].
pub struct ReadView {
    pub messages: Seq<MessageView>,
    pub next_offset: Seq<char>,
    pub at_tail: bool,
    pub closed: bool,
}

impl View for ReadResult {
    type V = ReadView;

    open spec fn view(&self) -> ReadView {
        ReadView {
            messages: self.messages@.map_values(|m: Message| m@),
            next_offset: self.next_offset@,
            at_tail: self.at_tail,
            closed: self.closed,
        }
    }
}

/// Stream metadata.
#[derive(Debug)]
pub struct StreamMetadata {
    /// Stream configuration.
    pub config: StreamConfig,
    /// Next offset that will be assigned.
    pub next_offset: Offset,
    /// Whether the stream is closed.
    pub closed: bool,
    /// Total bytes stored in this stream.
    pub total_bytes: u64,
    /// Number of messages in the stream.
    pub message_count: u64,
    /// Creation time, in milliseconds since the Unix epoch.
    pub created_at: i64,
}

/// The contents of a [`StreamMetadata`].
pub struct MetadataView {
    pub config: StreamConfigView,
    pub next_offset: Seq<char>,
    pub closed: bool,
    pub total_bytes: u64,
    pub message_count: u64,
    pub created_at: i64,
}

impl View for StreamMetadata {
    type V = MetadataView;

    open spec fn view(&self) -> MetadataView {
        MetadataView {
            config: self.config@,
            next_offset: self.next_offset@,
            closed: self.closed,
            total_bytes: self.total_bytes,
            message_count: self.message_count,
            created_at: self.created_at,
        }
    }
}

/// Result of create-stream operation.
#[derive(Debug, Clone, Copy, PartialEq, Eq, Structural)]
pub enum CreateStreamResult {
    /// A new stream was created.
    Created,
    /// Stream already existed with matching config (idempotent create).
    AlreadyExists,
}

/// Result of atomic create-with-data operation: the creation status with a
/// snapshot of the stream taken in the same step.
#[derive(Debug)]
pub struct CreateWithDataResult {
    /// Whether the stream was newly created or already existed.
    pub status: CreateStreamResult,
    /// Next offset (for `Stream-Next-Offset` response header).
    pub next_offset: Offset,
    /// Whether the stream is closed (for `Stream-Closed` response header).
    pub closed: bool,
}

/// The contents of a [`CreateWithDataResult`].
pub struct CreateWithDataView {
    pub status: CreateStreamResult,
    pub next_offset: Seq<char>,
    pub closed: bool,
}

impl View for CreateWithDataResult {
    type V = CreateWithDataView;

    open spec fn view(&self) -> CreateWithDataView {
        CreateWithDataView {
            status: self.status,
            next_offset: self.next_offset@,
            closed: self.closed,
        }
    }
}

/// Result of an append with producer sequencing, with a snapshot of the
/// stream taken in the same step.
#[derive(Debug, PartialEq, Eq)]
pub enum ProducerAppendResult {
    /// New data accepted (200 OK).
    Accepted { epoch: u64, seq: u64, next_offset: Offset, closed: bool },
    /// Duplicate detected, data already persisted (204 No Content).
    Duplicate { epoch: u64, seq: u64, next_offset: Offset, closed: bool },
}

/// The contents of a [`ProducerAppendResult`].
pub enum ProducerAppendView {
    Accepted { epoch: u64, seq: u64, next_offset: Seq<char>, closed: bool },
    Duplicate { epoch: u64, seq: u64, next_offset: Seq<char>, closed: bool },
}

impl View for ProducerAppendResult {
    type V = ProducerAppendView;

    open spec fn view(&self) -> ProducerAppendView {
        match self {
            ProducerAppendResult::Accepted { epoch, seq, next_offset, closed } =>
                ProducerAppendView::Accepted {
                epoch: *epoch,
                seq: *seq,
                next_offset: next_offset@,
                closed: *closed,
            },
            ProducerAppendResult::Duplicate { epoch, seq, next_offset, closed } =>
                ProducerAppendView::Duplicate {
                epoch: *epoch,
                seq: *seq,
                next_offset: next_offset@,
                closed: *closed,
            },
        }
    }
}

/// Producer headers of an idempotent append.
#[derive(Debug, Clone)]
pub struct ProducerHeaders {
    /// Producer identity.
    pub id: String,
    /// Producer epoch.
    pub epoch: u64,
    /// Sequence number within the epoch.
    pub seq: u64,
}

/// What a stream remembers of a producer.
#[derive(Debug, Clone, Copy, PartialEq, Eq, Structural)]
pub struct ProducerState {
    /// The producer's current epoch.
    pub epoch: u64,
    /// The last sequence number accepted in that epoch.
    pub last_seq: u64,
    /// When the last append was accepted (ms since the epoch).
    pub updated_at: i64,
}

/// The verdict on a producer append before any data is written.
#[derive(Debug, Clone, Copy, PartialEq, Eq, Structural)]
pub enum ProducerCheck {
    /// A new append: write it.
    Accept,
    /// Already accepted: answer with the recorded epoch and sequence.
    Duplicate { epoch: u64, seq: u64 },
}

/// The message of an epoch increase whose first sequence is not 0.
pub open spec fn epoch_restart_message() -> Seq<char> {
    "a new producer epoch must start at sequence 0"@
}

/// The verdict on a producer append: fencing of stale epochs first, then
/// duplicates, then a closed stream, then the sequence rules.
pub open spec fn producer_verdict(
    state: Option<ProducerState>,
    epoch: u64,
    seq: u64,
    closed: bool,
) -> Result<ProducerCheck, ErrorView> {
    match state {
        Some(st) => if epoch < st.epoch {
            Err(ErrorView::EpochFenced { current: st.epoch, received: epoch })
        } else if epoch == st.epoch && seq <= st.last_seq {
            Ok(ProducerCheck::Duplicate { epoch: st.epoch, seq: st.last_seq })
        } else if closed {
            Err(ErrorView::StreamClosed)
        } else if epoch > st.epoch {
            if seq == 0 {
                Ok(ProducerCheck::Accept)
            } else {
                Err(ErrorView::InvalidProducerState(epoch_restart_message()))
            }
        } else if seq == st.last_seq + 1 {
            Ok(ProducerCheck::Accept)
        } else {
            Err(ErrorView::SequenceGap { expected: (st.last_seq + 1) as u64, actual: seq })
        },
        None => if closed {
            Err(ErrorView::StreamClosed)
        } else if seq == 0 {
            Ok(ProducerCheck::Accept)
        } else {
            Err(ErrorView::SequenceGap { expected: 0, actual: seq })
        },
    }
}

/// The view of a result carrying no value.
pub open spec fn unit_result(r: Result<(), Error>) -> Result<(), ErrorView> {
    match r {
        Ok(_) => Ok(()),
        Err(e) => Err(e@),
    }
}

/// The state behind an optional reference.
pub open spec fn opt_state(s: Option<&ProducerState>) -> Option<ProducerState> {
    match s {
        Some(st) => Some(*st),
        None => None,
    }
}

/// Decides a producer append against the producer's recorded state.
pub fn check_producer(state: Option<&ProducerState>, producer: &ProducerHeaders, closed: bool) -> (r:
    Result<ProducerCheck, Error>)
    ensures
        match r {
            Ok(c) => producer_verdict(opt_state(state), producer.epoch, producer.seq, closed)
                == Ok::<ProducerCheck, ErrorView>(c),
            Err(e) => producer_verdict(opt_state(state), producer.epoch, producer.seq, closed)
                == Err::<ProducerCheck, ErrorView>(e@),
        },
{
    match state {
        Some(st) => {
            if producer.epoch < st.epoch {
                Err(Error::EpochFenced { current: st.epoch, received: producer.epoch })
            } else if producer.epoch == st.epoch && producer.seq <= st.last_seq {
                Ok(ProducerCheck::Duplicate { epoch: st.epoch, seq: st.last_seq })
            } else if closed {
                Err(Error::StreamClosed)
            } else if producer.epoch > st.epoch {
                if producer.seq == 0 {
                    Ok(ProducerCheck::Accept)
                } else {
                    Err(
                        Error::InvalidProducerState(
                            String::from_str("a new producer epoch must start at sequence 0"),
                        ),
                    )
                }
            } else if producer.seq == st.last_seq + 1 {
                Ok(ProducerCheck::Accept)
            } else {
                Err(Error::SequenceGap { expected: st.last_seq + 1, actual: producer.seq })
            }
        },
        None => {
            if closed {
                Err(Error::StreamClosed)
            } else if producer.seq == 0 {
                Ok(ProducerCheck::Accept)
            } else {
                Err(Error::SequenceGap { expected: 0, actual: producer.seq })
            }
        },
    }
}

/// Whether an append's content type is the stream's, once normalised.
pub open spec fn content_type_accepted(stream_ct: Seq<char>, ct: Seq<char>) -> bool {
    normalized_content_type(ct) == stream_ct
}

/// Checks an append's content type against the stream's.
pub fn validate_content_type(stream_ct: &str, ct: &str) -> (r: Result<(), Error>)
    ensures
        r is Ok <==> content_type_accepted(stream_ct@, ct@),
        r matches Err(e) ==> e@ == (ErrorView::ContentTypeMismatch {
            stream: stream_ct@,
            request: ct@,
        }),
{
    let n = normalize_content_type(ct);
    if str_eq(n.as_str(), stream_ct) {
        Ok(())
    } else {
        Err(
            Error::ContentTypeMismatch {
                stream: String::from_str(stream_ct),
                request: String::from_str(ct),
            },
        )
    }
}

/// `a` sorts strictly before `b` as strings: at the first position where they
/// differ `a` has the smaller character, or `a` is a proper prefix of `b`.
pub open spec fn str_lt(a: Seq<char>, b: Seq<char>) -> bool
    decreases a.len(),
{
    if a.len() == 0 {
        b.len() > 0
    } else if b.len() == 0 {
        false
    } else if a[0] != b[0] {
        a[0] < b[0]
    } else {
        str_lt(a.drop_first(), b.drop_first())
    }
}

/// The stream-sequence check: a given `Stream-Seq` must sort after the last
/// one accepted; the new value to record is returned.
pub open spec fn seq_verdict(last: Option<Seq<char>>, seq: Option<Seq<char>>) -> Result<
    Option<Seq<char>>,
    ErrorView,
> {
    match seq {
        None => Ok(None),
        Some(s) => match last {
            Some(l) => if str_lt(l, s) {
                Ok(Some(s))
            } else {
                Err(ErrorView::SeqOrderingViolation { last: l, given: s })
            },
            None => Ok(Some(s)),
        },
    }
}

proof fn lemma_str_lt_suffix(a: Seq<char>, b: Seq<char>, i: int)
    requires
        0 <= i <= a.len(),
        i <= b.len(),
        a.subrange(0, i) == b.subrange(0, i),
    ensures
        str_lt(a, b) == str_lt(a.subrange(i, a.len() as int), b.subrange(i, b.len() as int)),
    decreases i,
{
    if i > 0 {
        assert(a[0] == a.subrange(0, i)[0]);
        assert(b[0] == b.subrange(0, i)[0]);
        assert(a.drop_first().subrange(0, i - 1) =~= a.subrange(0, i).drop_first());
        assert(b.drop_first().subrange(0, i - 1) =~= b.subrange(0, i).drop_first());
        lemma_str_lt_suffix(a.drop_first(), b.drop_first(), i - 1);
        assert(a.drop_first().subrange(i - 1, a.len() - 1) =~= a.subrange(i, a.len() as int));
        assert(b.drop_first().subrange(i - 1, b.len() - 1) =~= b.subrange(i, b.len() as int));
    } else {
        assert(a.subrange(0, a.len() as int) =~= a);
        assert(b.subrange(0, b.len() as int) =~= b);
    }
}

/// Whether `a` sorts strictly before `b` as strings.
pub fn chars_lt(a: &Vec<char>, b: &Vec<char>) -> (r: bool)
    ensures
        r == str_lt(a@, b@),
{
    let mut i: usize = 0;
    while i < a.len() && i < b.len() && a[i] == b[i]
        invariant
            i <= a@.len(),
            i <= b@.len(),
            a@.subrange(0, i as int) == b@.subrange(0, i as int),
        decreases a.len() - i,
    {
        assert(a@.subrange(0, i + 1) =~= a@.subrange(0, i as int).push(a@[i as int]));
        assert(b@.subrange(0, i + 1) =~= b@.subrange(0, i as int).push(b@[i as int]));
        i = i + 1;
    }
    proof {
        lemma_str_lt_suffix(a@, b@, i as int);
    }
    if i == a.len() {
        i < b.len()
    } else if i == b.len() {
        false
    } else {
        a[i] < b[i]
    }
}

/// The view of an optional string.
pub open spec fn opt_text(s: Option<&str>) -> Option<Seq<char>> {
    match s {
        Some(t) => Some(t@),
        None => None,
    }
}

/// Checks a `Stream-Seq` value against the last one accepted.
pub fn validate_seq(last: Option<&str>, seq: Option<&str>) -> (r: Result<Option<String>, Error>)
    ensures
        match r {
            Ok(v) => seq_verdict(opt_text(last), opt_text(seq)) == Ok::<
                Option<Seq<char>>,
                ErrorView,
            >(
                match v {
                    Some(s) => Some(s@),
                    None => None,
                },
            ),
            Err(e) => seq_verdict(opt_text(last), opt_text(seq)) == Err::<
                Option<Seq<char>>,
                ErrorView,
            >(e@),
        },
{
    match seq {
        None => Ok(None),
        Some(s) => match last {
            Some(l) => {
                let lv = chars_of(l);
                let sv = chars_of(s);
                if chars_lt(&lv, &sv) {
                    Ok(Some(String::from_str(s)))
                } else {
                    Err(
                        Error::SeqOrderingViolation {
                            last: String::from_str(l),
                            given: String::from_str(s),
                        },
                    )
                }
            },
            None => Ok(Some(String::from_str(s))),
        },
    }
}

/// The refusal, if any, of an append to a stream with configuration `config`
/// and closed flag `closed` at time `now`: an expired stream first, then a
/// closed one, then a content-type mismatch.
pub open spec fn open_stream_verdict(config: StreamConfigView, closed: bool, ct: Seq<char>, now: i64)
    -> Option<ErrorView> {
    if config_expired(config, now) {
        Some(ErrorView::StreamExpired)
    } else if closed {
        Some(ErrorView::StreamClosed)
    } else if !content_type_accepted(config.content_type, ct) {
        Some(ErrorView::ContentTypeMismatch { stream: config.content_type, request: ct })
    } else {
        None
    }
}

/// Checks that a stream accepts an append of content type `ct` at `now`.
pub fn check_open_stream(config: &StreamConfig, closed: bool, ct: &str, now: i64) -> (r: Result<
    (),
    Error,
>)
    ensures
        match r {
            Ok(_) => open_stream_verdict(config@, closed, ct@, now) is None,
            Err(e) => open_stream_verdict(config@, closed, ct@, now) == Some(e@),
        },
{
    if config.is_expired_at(now) {
        return Err(Error::StreamExpired);
    }
    if closed {
        return Err(Error::StreamClosed);
    }
    validate_content_type(config.content_type.as_str(), ct)
}

/// Whether a batch of `batch` bytes fits the budgets: the store-wide one is
/// checked first, then the stream's.
pub open spec fn budget_verdict(total: nat, stream_total: nat, batch: nat, max_total: nat, max_stream: nat)
    -> Option<ErrorView> {
    if total + batch > max_total {
        Some(ErrorView::MemoryLimitExceeded)
    } else if stream_total + batch > max_stream {
        Some(ErrorView::StreamSizeLimitExceeded)
    } else {
        None
    }
}

/// Checks a batch of `batch` bytes against the store-wide and the per-stream
/// byte budgets.
pub fn check_budget(total: u64, stream_total: u64, batch: u64, max_total: u64, max_stream: u64) -> (r:
    Result<(), Error>)
    ensures
        match r {
            Ok(_) => budget_verdict(
                total as nat,
                stream_total as nat,
                batch as nat,
                max_total as nat,
                max_stream as nat,
            ) is None,
            Err(e) => budget_verdict(
                total as nat,
                stream_total as nat,
                batch as nat,
                max_total as nat,
                max_stream as nat,
            ) == Some(e@),
        },
{
    if batch > max_total || total > max_total - batch {
        return Err(Error::MemoryLimitExceeded);
    }
    if batch > max_stream || stream_total > max_stream - batch {
        return Err(Error::StreamSizeLimitExceeded);
    }
    Ok(())
}

/// Refuses an empty batch, as every batch append does before anything else.
pub fn check_batch_nonempty(messages: &Vec<Vec<u8>>) -> (r: Result<(), Error>)
    ensures
        r is Ok <==> messages@.len() > 0,
        r matches Err(e) ==> e@ == memory::empty_batch_error(),
{
    if messages.len() == 0 {
        Err(
            Error::InvalidHeader {
                header: String::from_str("Content-Length"),
                reason: String::from_str("batch cannot be empty"),
            },
        )
    } else {
        Ok(())
    }
}

/// The time the system clock has run since the Unix epoch
/// (`std::time::UNIX_EPOCH.elapsed()`, which reads `SystemTime::now()`), or
/// `None` when the clock reads before the epoch. Nothing is stated of the
/// value: it is the machine's clock.
#[verifier::external_body]
fn elapsed_since_unix_epoch() -> Option<core::time::Duration> {
    match std::time::UNIX_EPOCH.elapsed() {
        Ok(d) => Some(d),
        Err(_) => None,
    }
}

/// The whole milliseconds in a duration, as `Duration::as_millis` counts them.
pub uninterp spec fn duration_millis(d: core::time::Duration) -> u128;

/// `Duration::as_millis`: the whole milliseconds in `d`.
#[verifier::external_body]
fn millis_of(d: &core::time::Duration) -> (ms: u128)
    ensures
        ms == duration_millis(*d),
{
    d.as_millis()
}

/// The current time in milliseconds since the Unix epoch, or `None` when the
/// system clock reads before the epoch (or so far after it that the count
/// does not fit in an `i64`).
pub(crate) fn current_time_millis() -> (r: Option<i64>)
    ensures
        r matches Some(t) ==> t >= 0,
{
    match elapsed_since_unix_epoch() {
        Some(d) => {
            let ms = millis_of(&d);
            if ms <= 0x7fff_ffff_ffff_ffffu128 {
                Some(ms as i64)
            } else {
                None
            }
        },
        None => None,
    }
}

/// The error of an operation that needs the time when the system clock reads
/// before the Unix epoch.
pub open spec fn clock_unreadable() -> ErrorView {
    ErrorView::Storage("system clock before Unix epoch"@)
}

/// Builds the error of an operation that could not read the clock.
pub fn clock_error() -> (e: Error)
    ensures
        e@ == clock_unreadable(),
{
    Error::Storage("system clock before Unix epoch".to_owned())
}

/// The view of a result carrying an offset.
pub open spec fn offset_result(r: Result<Offset, Error>) -> Result<Seq<char>, ErrorView> {
    match r {
        Ok(o) => Ok(o@),
        Err(e) => Err(e@),
    }
}

/// The view of a read result.
pub open spec fn read_result(r: Result<ReadResult, Error>) -> Result<ReadView, ErrorView> {
    match r {
        Ok(v) => Ok(v@),
        Err(e) => Err(e@),
    }
}

/// The view of a metadata result.
pub open spec fn metadata_result(r: Result<StreamMetadata, Error>) -> Result<MetadataView, ErrorView> {
    match r {
        Ok(v) => Ok(v@),
        Err(e) => Err(e@),
    }
}

/// The view of a create result.
pub open spec fn create_result(r: Result<CreateStreamResult, Error>) -> Result<
    CreateStreamResult,
    ErrorView,
> {
    match r {
        Ok(v) => Ok(v),
        Err(e) => Err(e@),
    }
}

/// The view of a create-with-data result.
pub open spec fn create_with_data_result(r: Result<CreateWithDataResult, Error>) -> Result<
    CreateWithDataView,
    ErrorView,
> {
    match r {
        Ok(v) => Ok(v@),
        Err(e) => Err(e@),
    }
}

/// The view of a producer append result.
pub open spec fn producer_result(r: Result<ProducerAppendResult, Error>) -> Result<
    ProducerAppendView,
    ErrorView,
> {
    match r {
        Ok(v) => Ok(v@),
        Err(e) => Err(e@),
    }
}

/// The total length of a sequence of payloads.
pub open spec fn total_len(ps: Seq<Seq<u8>>) -> nat
    decreases ps.len(),
{
    if ps.len() == 0 {
        0
    } else {
        total_len(ps.drop_last()) + ps.last().len()
    }
}

pub proof fn lemma_total_len_push(ps: Seq<Seq<u8>>, x: Seq<u8>)
    ensures
        total_len(ps.push(x)) == total_len(ps) + x.len(),
{
    assert(ps.push(x).drop_last() =~= ps);
}

/// A single payload's total length is its length.
pub proof fn lemma_total_len_single(x: Seq<u8>)
    ensures
        total_len(seq![x]) == x.len(),
{
    assert(seq![x].drop_last() =~= Seq::<Seq<u8>>::empty());
    assert(seq![x].last() == x);
    assert(total_len(Seq::<Seq<u8>>::empty()) == 0);
}

/// Lengths of prefixes never exceed the whole.
pub proof fn lemma_total_len_take(ps: Seq<Seq<u8>>, i: int)
    requires
        0 <= i <= ps.len(),
    ensures
        total_len(ps.take(i)) <= total_len(ps),
    decreases ps.len() - i,
{
    if i < ps.len() {
        lemma_total_len_take(ps, i + 1);
        assert(ps.take(i + 1).drop_last() =~= ps.take(i));
    } else {
        assert(ps.take(i) =~= ps);
    }
}

/// The canonical offset of message `i` of a stream whose payloads are `ps`.
pub open spec fn offset_of(ps: Seq<Seq<u8>>, i: int) -> Seq<char> {
    canonical_text(i as u64, total_len(ps.take(i)) as u64)
}

/// The offset a stream with payloads `ps` will give its next message.
pub open spec fn next_offset_of(ps: Seq<Seq<u8>>) -> Seq<char> {
    canonical_text(ps.len() as u64, total_len(ps) as u64)
}

/// The messages of a stream with payloads `ps`, from index `start` on.
pub open spec fn messages_from(ps: Seq<Seq<u8>>, start: int) -> Seq<MessageView> {
    Seq::new(
        (ps.len() - start) as nat,
        |j: int|
            MessageView {
                offset: offset_of(ps, start + j),
                data: ps[start + j],
                byte_len: ps[start + j].len() as u64,
            },
    )
}

} // verus!
