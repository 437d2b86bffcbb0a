use crate::channel::{stream_of, DeliveryChannel, EndMarker, Offer, Taken};
use crate::chunk::{chunks_of, Chunk};
use crate::reader::{ChunkedReader, Produced};
use crate::source::{joined, no_failure, ByteSource, ReadOutcome};
use vstd::prelude::*;

verus! {

/// The life of one streaming request. The three states but `Producing` are
/// terminal.
pub enum SessionState {
    Producing,
    Completed,
    Failed(String),
    Cancelled,
}

/// What one step of a session came to.
pub enum Step {
    /// A chunk went into the channel.
    Progressed,
    /// The channel is full: the chunk is held until the consumer takes one.
    Blocked,
    /// The session reached a terminal state.
    Finished,
}

/// `chunks` are numbered from zero up, one by one, and carry `payloads` in order.
pub open spec fn numbered(chunks: Seq<Chunk>, payloads: Seq<Seq<u8>>) -> bool {
    &&& chunks.len() == payloads.len()
    &&& forall|i: int|
        0 <= i < chunks.len() ==> #[trigger] chunks[i].sequence_number == i
            && chunks[i].payload@ == payloads[i]
}

/// The stream a consumer sees: `payloads` as chunks numbered from zero, then
/// one end marker.
pub open spec fn numbered_stream(payloads: Seq<Seq<u8>>, end: EndMarker, stream: Seq<Taken>) -> bool {
    &&& stream.len() == payloads.len() + 1
    &&& forall|i: int|
        0 <= i < payloads.len() ==> match #[trigger] stream[i] {
            Taken::Chunk(c) => c.sequence_number == i && c.payload@ == payloads[i],
            _ => false,
        }
    &&& stream[payloads.len() as int] == Taken::End(end)
}

/// One producer task: it owns a chunked reader, and with it the source, and
/// feeds one delivery channel.
pub struct Session<T> {
    reader: ChunkedReader<T>,
    held: Option<Chunk>,
    state: SessionState,
    attempts: Ghost<nat>,
}

impl<T: ByteSource> Session<T> {
    pub closed spec fn state(&self) -> SessionState {
        self.state
    }

    /// How many times the session asked its reader for a chunk.
    pub closed spec fn attempts(&self) -> nat {
        self.attempts@
    }

    /// The session still holds its source.
    pub closed spec fn holds_source(&self) -> bool {
        self.reader.holds_source()
    }

    /// Every outcome of a read of the source, in order.
    pub closed spec fn reads(&self) -> Seq<ReadOutcome> {
        self.reader.log()
    }

    /// The source the session holds, if it still holds one.
    pub closed spec fn source(&self) -> Option<T> {
        self.reader.source()
    }

    /// The bytes that went into chunks.
    pub closed spec fn consumed(&self) -> Seq<u8> {
        self.reader.consumed()
    }

    /// The payloads of the chunks produced.
    pub closed spec fn produced(&self) -> Seq<Seq<u8>> {
        self.reader.emitted()
    }

    pub closed spec fn chunk_size(&self) -> nat {
        self.reader.size()
    }

    /// The chunk held back by a full channel, if any.
    pub closed spec fn held(&self) -> Option<Chunk> {
        self.held
    }

    pub closed spec fn in_flight(&self) -> Seq<Chunk> {
        match self.held {
            Some(c) => seq![c],
            None => Seq::empty(),
        }
    }

    /// The session and the channel it feeds agree.
    pub closed spec fn wf(&self, ch: &DeliveryChannel) -> bool {
        &&& self.reader.wf()
        &&& ch.wf()
        &&& match self.state {
            SessionState::Producing => {
                &&& (self.reader.state() is Reading || self.reader.state() is Ending)
                &&& ch.end() is None
                &&& numbered(ch.sent() + self.in_flight(), self.reader.emitted())
            },
            SessionState::Completed => {
                &&& self.reader.state() is Completed
                &&& ch.end() == Some(EndMarker::Done)
                &&& numbered(ch.sent(), self.reader.emitted())
            },
            SessionState::Failed(e) => {
                &&& self.reader.state() is Failed
                &&& ch.end() == Some(EndMarker::Failed(e))
                &&& numbered(ch.sent(), self.reader.emitted())
                &&& (self.reader.log().len() > 0 && self.reader.log().last()
                    == ReadOutcome::Failed(e)) || self.reader.emitted().len() == u64::MAX
            },
            SessionState::Cancelled => !self.reader.holds_source(),
        }
        &&& self.state !is Producing ==> self.held is None
    }

    /// Starts a session over `source`, cutting chunks of `chunk_size` bytes
    /// into a fresh channel of `capacity` chunks.
    pub fn start(source: T, chunk_size: usize, capacity: usize) -> (r: (
        Session<T>,
        DeliveryChannel,
    ))
        requires
            chunk_size > 0,
            capacity >= 1,
        ensures
            r.0.wf(&r.1),
            r.0.state() is Producing,
            r.0.holds_source(),
            r.0.source() == Some(source),
            r.0.reads() == Seq::<ReadOutcome>::empty(),
            r.0.held() is None,
            r.1.wf(),
            r.1.buffered() == Seq::<Chunk>::empty(),
            r.1.end() is None,
            r.0.chunk_size() == chunk_size,
            r.0.attempts() == 0,
            r.0.produced() == Seq::<Seq<u8>>::empty(),
            r.1.cap() == capacity,
            r.1.sent() == Seq::<Chunk>::empty(),
            !r.1.cancelled(),
    {
        let reader = ChunkedReader::with_chunk_size(source, chunk_size);
        let channel = DeliveryChannel::new(capacity);
        proof {
            reader.lemma_shape();
        }
        let session = Session {
            reader,
            held: None,
            state: SessionState::Producing,
            attempts: Ghost(0),
        };
        assert(channel.sent() + session.in_flight() =~= Seq::<Chunk>::empty());
        (session, channel)
    }

    pub fn is_producing(&self) -> (r: bool)
        ensures
            r == self.state() is Producing,
    {
        match self.state {
            SessionState::Producing => true,
            _ => false,
        }
    }

    /// Runs one step of the producer. A cancelled channel ends the session at
    /// once, with no further read, and releases the source. Otherwise a chunk
    /// held back by a full channel is offered again; with none held, the
    /// reader is asked for one chunk, which is offered, and a clean end or a
    /// failure of the reader closes the channel with the matching marker.
    pub fn step(&mut self, channel: &mut DeliveryChannel) -> (r: Step)
        requires
            old(self).wf(old(channel)),
            old(self).state() is Producing,
        ensures
            final(self).wf(final(channel)),
            final(channel).wf(),
            final(self).chunk_size() == old(self).chunk_size(),
            final(self).attempts() <= old(self).attempts() + 1,
            old(self).reads().len() <= final(self).reads().len(),
            final(self).reads().take(old(self).reads().len() as int) == old(self).reads(),
            r is Blocked ==> final(self).held() is Some,
            r is Finished && !old(channel).cancelled() ==> final(channel).end() is Some,
            final(self).reads().len() > old(self).reads().len() && final(self).reads().last() is Failed
                ==> final(self).state() == SessionState::Failed(
                final(self).reads().last()->Failed_0,
            ),
            final(self).reads() == old(self).reads() || final(self).reads().len() > old(
                self).reads().len(),
            final(channel).cap() == old(channel).cap(),
            final(channel).cancelled() == old(channel).cancelled(),
            final(channel).taken() == old(channel).taken(),
            old(channel).cancelled() ==> {
                &&& final(self).state() is Cancelled
                &&& !final(self).holds_source()
                &&& final(self).attempts() == old(self).attempts()
                &&& final(channel).sent() == old(channel).sent()
            },
            (r is Finished) == (final(self).state() !is Producing),
            !old(channel).cancelled() && old(self).held() is None && !old(self).holds_source()
                ==> final(self).state() is Completed && final(channel).end() == Some(
                EndMarker::Done,
            ),
            !old(channel).cancelled() && old(self).held() is None && old(self).holds_source()
                && old(self).produced().len() < u64::MAX && old(self).source()->Some_0.contents() is Some
                ==> ({
                let rest = old(self).source()->Some_0.contents()->Some_0;
                let size = old(self).chunk_size();
                &&& rest.len() == 0 ==> final(self).state() is Completed && final(channel).end()
                    == Some(EndMarker::Done)
                &&& rest.len() > 0 ==> final(self).state() is Producing && final(self).produced()
                    == old(self).produced().push(
                    rest.take(if rest.len() < size { rest.len() as int } else { size as int }),
                )
                &&& rest.len() >= size ==> final(self).holds_source() && final(
                    self).source()->Some_0.contents() == Some(rest.skip(size as int))
                &&& rest.len() < size ==> !final(self).holds_source()
            }),
            old(channel).cancelled() || old(self).held() is Some ==> final(self).reads() == old(
                self).reads(),
            !old(channel).cancelled() ==> final(self).state() !is Cancelled,
            r is Blocked ==> final(channel).buffered().len() == final(channel).cap(),
            r is Progressed ==> final(channel).sent().len() == old(channel).sent().len() + 1,
            !old(channel).cancelled() && old(self).held() is Some ==> {
                &&& final(self).attempts() == old(self).attempts()
                &&& old(channel).buffered().len() < old(channel).cap() ==> r is Progressed
                    && final(channel).sent() == old(channel).sent().push(old(self).held()->Some_0)
                    && final(self).held() is None
                &&& old(channel).buffered().len() == old(channel).cap() ==> r is Blocked
                    && final(channel).sent() == old(channel).sent() && final(self).held()
                    == old(self).held()
            },
            !old(channel).cancelled() && old(self).held() is None ==> final(self).attempts()
                == old(self).attempts() + 1,
            !old(channel).cancelled() && old(self).held() is None && final(self).state() is Producing
                ==> {
                &&& final(self).produced().len() == old(self).produced().len() + 1
                &&& old(channel).buffered().len() < old(channel).cap() ==> r is Progressed
                    && final(self).held() is None && final(channel).buffered().len()
                    == old(channel).buffered().len() + 1
                &&& old(channel).buffered().len() == old(channel).cap() ==> r is Blocked
                    && final(self).held() is Some && final(channel).sent() == old(channel).sent()
            },
            final(self).state() !is Producing ==> !final(self).holds_source(),
    {
        proof {
            self.reader.lemma_shape();
            channel.lemma_bounded_fifo();
        }
        if channel.is_cancelled() {
            self.reader.release();
            self.held = None;
            self.state = SessionState::Cancelled;
            return Step::Finished;
        }
        let chunk = match self.held.take() {
            Some(c) => c,
            None => {
                self.attempts = Ghost(self.attempts@ + 1);
                match self.reader.next() {
                    Produced::Chunk(c) => {
                        assert(channel.sent().push(c) =~= channel.sent() + seq![c]);
                        c
                    },
                    Produced::Done => {
                        channel.close(EndMarker::Done);
                        self.state = SessionState::Completed;
                        assert(channel.sent() + self.in_flight() =~= channel.sent());
                        return Step::Finished;
                    },
                    Produced::Failed(cause) => {
                        channel.close(EndMarker::Failed(cause.clone()));
                        self.state = SessionState::Failed(cause);
                        assert(channel.sent() + self.in_flight() =~= channel.sent());
                        return Step::Finished;
                    },
                }
            },
        };
        let ghost c = chunk;
        let ghost before = channel.sent();
        proof {
            channel.lemma_bounded_fifo();
        }
        match channel.offer(chunk) {
            Offer::Accepted => {
                assert(channel.sent() + self.in_flight() =~= before + seq![c]);
                Step::Progressed
            },
            Offer::Full(c2) => {
                self.held = Some(c2);
                assert(channel.sent() + self.in_flight() =~= before + seq![c]);
                Step::Blocked
            },
            Offer::Closed(_) => {
                self.reader.release();
                self.state = SessionState::Cancelled;
                Step::Finished
            },
        }
    }

    /// A session that failed after producing `k` chunks leaves its consumer
    /// exactly those `k` chunks, numbered from zero and each of the full chunk
    /// size, followed by one failure marker: never a silent end.
    pub proof fn lemma_failure_is_reported(&self, ch: &DeliveryChannel)
        requires
            self.wf(ch),
            self.state() is Failed,
        ensures
            numbered_stream(
                self.produced(),
                EndMarker::Failed(self.state()->Failed_0),
                stream_of(ch.sent(), ch.end()),
            ),
            forall|i: int|
                0 <= i < self.produced().len() ==> #[trigger] self.produced()[i].len()
                    == self.chunk_size(),
            (self.reads().len() > 0 && self.reads().last() == ReadOutcome::Failed(
                self.state()->Failed_0,
            )) || self.produced().len() == u64::MAX,
    {
        self.reader.lemma_shape();
        let s = stream_of(ch.sent(), ch.end());
        let k = self.produced().len();
        assert(ch.sent().len() == k);
        assert forall|i: int| 0 <= i < k implies match #[trigger] s[i] {
            Taken::Chunk(c) => c.sequence_number == i && c.payload@ == self.produced()[i],
            _ => false,
        } by {
            assert(s[i] == Taken::Chunk(ch.sent()[i]));
        }
        assert forall|i: int| 0 <= i < k implies #[trigger] self.produced()[i].len()
            == self.chunk_size() by {
            assert(self.reader.emitted()[i].len() == self.reader.size());
        }
    }

    /// A session that completed leaves its consumer the source cut into
    /// pieces of the chunk size, as chunks numbered from zero, followed by one
    /// clean end marker.
    pub proof fn lemma_completion_is_reported(&self, ch: &DeliveryChannel)
        requires
            self.wf(ch),
            self.state() is Completed,
        ensures
            self.produced() == chunks_of(self.consumed(), self.chunk_size()),
            self.consumed() == joined(self.reads()),
            no_failure(self.reads()),
            numbered_stream(self.produced(), EndMarker::Done, stream_of(ch.sent(), ch.end())),
    {
        self.reader.lemma_shape();
        self.reader.lemma_clean_end_cuts_source();
        let s = stream_of(ch.sent(), ch.end());
        let k = self.produced().len();
        assert forall|i: int| 0 <= i < k implies match #[trigger] s[i] {
            Taken::Chunk(c) => c.sequence_number == i && c.payload@ == self.produced()[i],
            _ => false,
        } by {
            assert(s[i] == Taken::Chunk(ch.sent()[i]));
        }
    }

    /// What the consumer does to the channel, taking chunks or cancelling,
    /// leaves the session and the channel in agreement: the session reads
    /// the channel only through what went in and how it was closed.
    pub proof fn lemma_channel_change(&self, ch1: &DeliveryChannel, ch2: &DeliveryChannel)
        requires
            self.wf(ch1),
            ch2.wf(),
            ch2.sent() == ch1.sent(),
            ch2.end() == ch1.end(),
        ensures
            self.wf(ch2),
    {
    }
}

} // verus!
