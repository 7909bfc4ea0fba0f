//! What a file-backed stream keeps in memory next to its log file: its
//! configuration, the index of its log, whether it is closed, its producers
//! and its last `Stream-Seq`. Every decision an append takes on this state is
//! here; the server writes the log between deciding and recording.

use super::log_index::{batch_spans, lens_total, sizes_total, LogIndex};
use super::memory::{live_producers, map_get};
use super::producers::{entries_map, ProducerBook};
use super::{
    check_open_stream, check_producer, config_expired, content_type_accepted, opt_state, opt_text,
    open_stream_verdict, producer_verdict, seq_verdict, validate_content_type, validate_seq,
    ProducerCheck, ProducerHeaders, ProducerState, StreamConfig, StreamConfigView,
};
use crate::protocol::error::{Error, ErrorView};
use crate::protocol::offset::{canonical_text, Offset};
use vstd::prelude::*;

verus! {

/// The contents of a [`FileStream`].
#[verifier::ext_equal]
pub struct FileStreamView {
    pub config: StreamConfigView,
    /// (payload position, payload length) of each record of the log.
    pub records: Seq<(nat, nat)>,
    pub closed: bool,
    pub created_at: i64,
    pub producers: Map<Seq<char>, ProducerState>,
    pub last_seq: Option<Seq<char>>,
}

/// The in-memory state of a file-backed stream.
pub struct FileStream {
    config: StreamConfig,
    index: LogIndex,
    closed: bool,
    created_at: i64,
    producers: ProducerBook,
    last_seq: Option<String>,
}

impl View for FileStream {
    type V = FileStreamView;

    closed spec fn view(&self) -> FileStreamView {
        FileStreamView {
            config: self.config@,
            records: self.index@,
            closed: self.closed,
            created_at: self.created_at,
            producers: self.producers@,
            last_seq: super::memory::opt_string(self.last_seq),
        }
    }
}

/// The outcome of admitting a producer append: the state after stale
/// producers are dropped (when the stream is live), and the verdict.
pub open spec fn admit_producer_spec(
    s: FileStreamView,
    has_messages: bool,
    ct: Seq<char>,
    id: Seq<char>,
    epoch: u64,
    seq: u64,
    now: i64,
) -> (FileStreamView, Result<ProducerCheck, ErrorView>) {
    if config_expired(s.config, now) {
        (s, Err(ErrorView::StreamExpired))
    } else {
        let s1 = FileStreamView { producers: live_producers(s.producers, now), ..s };
        if has_messages && !content_type_accepted(s.config.content_type, ct) {
            (
                s1,
                Err(ErrorView::ContentTypeMismatch { stream: s.config.content_type, request: ct }),
            )
        } else {
            (s1, producer_verdict(map_get(s1.producers, id), epoch, seq, s.closed))
        }
    }
}

impl FileStream {
    /// The state's internal consistency.
    pub closed spec fn wf(&self) -> bool {
        self.index.wf() && self.producers.wf()
    }

    /// A new, empty, open stream created at `now`.
    pub fn new(config: StreamConfig, now: i64) -> (s: FileStream)
        ensures
            s.wf(),
            s@ == (FileStreamView {
                config: config@,
                records: seq![],
                closed: false,
                created_at: now,
                producers: Map::empty(),
                last_seq: None,
            }),
    {
        FileStream {
            config,
            index: LogIndex::new(),
            closed: false,
            created_at: now,
            producers: ProducerBook::new(),
            last_seq: None,
        }
    }

    /// A stream restored from its metadata and the rebuilt index of its log.
    pub fn restore(
        config: StreamConfig,
        closed: bool,
        created_at: i64,
        last_seq: Option<String>,
        producers: Vec<(String, ProducerState)>,
        index: LogIndex,
    ) -> (s: FileStream)
        requires
            index.wf(),
        ensures
            s.wf(),
            s@ == (FileStreamView {
                config: config@,
                records: index@,
                closed,
                created_at,
                producers: entries_map(producers@),
                last_seq: super::memory::opt_string(last_seq),
            }),
    {
        FileStream {
            config,
            index,
            closed,
            created_at,
            producers: ProducerBook::from_entries(producers),
            last_seq,
        }
    }

    /// The configuration.
    pub fn config(&self) -> (c: &StreamConfig)
        ensures
            c@ == self@.config,
    {
        &self.config
    }

    /// The index of the log.
    pub fn index(&self) -> (i: &LogIndex)
        requires
            self.wf(),
        ensures
            i.wf(),
            i@ == self@.records,
    {
        &self.index
    }

    /// Whether the stream is closed.
    pub fn is_closed(&self) -> (b: bool)
        ensures
            b == self@.closed,
    {
        self.closed
    }

    /// When the stream was created (ms since the epoch).
    pub fn created_at(&self) -> (t: i64)
        ensures
            t == self@.created_at,
    {
        self.created_at
    }

    /// The last `Stream-Seq` accepted.
    pub fn last_seq(&self) -> (r: Option<&str>)
        ensures
            opt_text(r) == self@.last_seq,
    {
        match &self.last_seq {
            Some(x) => Some(x.as_str()),
            None => None,
        }
    }

    /// Every recorded producer and its state.
    pub fn producer_entries(&self) -> (v: Vec<(String, ProducerState)>)
        requires
            self.wf(),
        ensures
            v@.len() == self@.producers.len(),
            forall|i: int|
                0 <= i < v@.len() ==> #[trigger] self@.producers.contains_key(v@[i].0@)
                    && self@.producers[v@[i].0@] == v@[i].1,
    {
        self.producers.entries()
    }

    /// The offset the next message will get.
    pub fn next_offset(&self) -> (o: Offset)
        requires
            self.wf(),
        ensures
            o@ == canonical_text(self@.records.len() as u64, lens_total(self@.records) as u64),
    {
        self.index.next_offset()
    }

    /// The payload bytes of the stream.
    pub fn total_bytes(&self) -> (n: u64)
        requires
            self.wf(),
        ensures
            n == lens_total(self@.records),
    {
        self.index.total_bytes()
    }

    /// Whether the stream has expired at `now`.
    pub fn is_expired_at(&self, now: i64) -> (b: bool)
        ensures
            b == config_expired(self@.config, now),
    {
        self.config.is_expired_at(now)
    }

    /// Admits an append without a producer at `now`: a live, open stream of
    /// the same content type.
    pub fn admit_append(&self, ct: &str, now: i64) -> (r: Result<(), Error>)
        ensures
            match r {
                Ok(_) => open_stream_verdict(self@.config, self@.closed, ct@, now) is None,
                Err(e) => open_stream_verdict(self@.config, self@.closed, ct@, now) == Some(e@),
            },
    {
        check_open_stream(&self.config, self.closed, ct, now)
    }

    /// Checks a `Stream-Seq` against the last one accepted; `Ok` carries the
    /// value to record once the append is written.
    pub fn admit_seq(&self, seq: Option<&str>) -> (r: Result<Option<String>, Error>)
        ensures
            match r {
                Ok(v) => seq_verdict(self@.last_seq, opt_text(seq)) == Ok::<
                    Option<Seq<char>>,
                    ErrorView,
                >(super::memory::opt_string(v)),
                Err(e) => seq_verdict(self@.last_seq, opt_text(seq)) == Err::<
                    Option<Seq<char>>,
                    ErrorView,
                >(e@),
            },
    {
        let last: Option<&str> = match &self.last_seq {
            Some(x) => Some(x.as_str()),
            None => None,
        };
        validate_seq(last, seq)
    }

    /// Admits a producer append at `now`: an expired stream is refused; stale
    /// producer states are dropped; a non-empty append must match the content
    /// type; then the producer's recorded state decides.
    pub fn admit_producer(
        &mut self,
        has_messages: bool,
        ct: &str,
        producer: &ProducerHeaders,
        now: i64,
    ) -> (r: Result<ProducerCheck, Error>)
        requires
            old(self).wf(),
        ensures
            final(self).wf(),
            ({
                let (s1, v) = admit_producer_spec(
                    old(self)@,
                    has_messages,
                    ct@,
                    producer.id@,
                    producer.epoch,
                    producer.seq,
                    now,
                );
                &&& final(self)@ == s1
                &&& match r {
                    Ok(c) => v == Ok::<ProducerCheck, ErrorView>(c),
                    Err(e) => v == Err::<ProducerCheck, ErrorView>(e@),
                }
            }),
    {
        if self.config.is_expired_at(now) {
            return Err(Error::StreamExpired);
        }
        self.producers.drop_stale(now);
        if has_messages {
            match validate_content_type(self.config.content_type.as_str(), ct) {
                Ok(()) => {},
                Err(e) => {
                    return Err(e);
                },
            }
        }
        let st = self.producers.get(producer.id.as_str());
        proof {
            assert(opt_state(st) == map_get(self@.producers, producer.id@));
        }
        check_producer(st, producer, self.closed)
    }

    /// Records the records of a batch of payloads of lengths `sizes`,
    /// written at log position `before_len`.
    pub fn record_batch(&mut self, before_len: u64, sizes: &[u64])
        requires
            old(self).wf(),
            old(self)@.records.len() + sizes@.len() <= u64::MAX,
            lens_total(old(self)@.records) + sizes_total(sizes@) <= u64::MAX,
            before_len + 4 * sizes@.len() + sizes_total(sizes@) <= u64::MAX,
        ensures
            final(self).wf(),
            final(self)@ == (FileStreamView {
                records: old(self)@.records + batch_spans(sizes@, before_len as nat),
                ..old(self)@
            }),
    {
        self.index.push_batch(before_len, sizes);
    }

    /// Records the `Stream-Seq` of an accepted append, if it carried one.
    pub fn accept_seq(&mut self, pending: Option<String>)
        ensures
            final(self)@ == (FileStreamView {
                last_seq: super::memory::next_last_seq(
                    old(self)@.last_seq,
                    super::memory::opt_string(pending),
                ),
                ..old(self)@
            }),
            final(self).wf() == old(self).wf(),
    {
        if let Some(v) = pending {
            self.last_seq = Some(v);
        }
    }

    /// Closes the stream.
    pub fn close(&mut self)
        ensures
            final(self)@ == (FileStreamView { closed: true, ..old(self)@ }),
            final(self).wf() == old(self).wf(),
    {
        self.closed = true;
    }

    /// Records an accepted producer append at `now`.
    pub fn record_producer(&mut self, producer: &ProducerHeaders, now: i64)
        requires
            old(self).wf(),
        ensures
            final(self).wf(),
            final(self)@ == (FileStreamView {
                producers: old(self)@.producers.insert(
                    producer.id@,
                    ProducerState { epoch: producer.epoch, last_seq: producer.seq, updated_at: now },
                ),
                ..old(self)@
            }),
    {
        let id = producer.id.clone();
        self.producers.set(
            id,
            ProducerState { epoch: producer.epoch, last_seq: producer.seq, updated_at: now },
        );
    }
}

} // verus!
