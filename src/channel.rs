use crate::chunk::Chunk;
use vstd::prelude::*;

verus! {

/// The default channel capacity, in chunks.
pub const DEFAULT_CAPACITY: usize = 128;

/// How the producer closed a channel.
pub enum EndMarker {
    Done,
    Failed(String),
}

/// The answer to an offer. A chunk that was not taken in comes back.
pub enum Offer {
    Accepted,
    /// The channel holds its capacity: the producer waits and offers again.
    Full(Chunk),
    /// The consumer closed the channel: the producer stops.
    Closed(Chunk),
}

/// The answer to a take.
pub enum Taken {
    Chunk(Chunk),
    /// Nothing is buffered and the producer has not closed: the consumer waits.
    Empty,
    /// Every chunk was delivered and the producer closed the channel so.
    End(EndMarker),
}

/// What a consumer that takes until the end is handed, in order: each chunk
/// the producer put in, then the end marker, if the producer closed.
pub open spec fn stream_of(sent: Seq<Chunk>, end: Option<EndMarker>) -> Seq<Taken> {
    let chunks = sent.map_values(|c: Chunk| Taken::Chunk(c));
    match end {
        Some(m) => chunks.push(Taken::End(m)),
        None => chunks,
    }
}

/// A single-producer, single-consumer FIFO of chunks holding at most its
/// capacity. The producer closes it with a marker, once; the consumer may
/// cancel it.
pub struct DeliveryChannel {
    buffer: Vec<Chunk>,
    capacity: usize,
    end: Option<EndMarker>,
    cancelled: bool,
    sent: Ghost<Seq<Chunk>>,
    taken: Ghost<Seq<Chunk>>,
}

impl DeliveryChannel {
    pub closed spec fn buffered(&self) -> Seq<Chunk> {
        self.buffer@
    }

    pub closed spec fn cap(&self) -> nat {
        self.capacity as nat
    }

    /// The marker the producer closed with, if it did.
    pub closed spec fn end(&self) -> Option<EndMarker> {
        self.end
    }

    pub closed spec fn cancelled(&self) -> bool {
        self.cancelled
    }

    /// Every chunk the producer put in, in order.
    pub closed spec fn sent(&self) -> Seq<Chunk> {
        self.sent@
    }

    /// Every chunk the consumer took out, in order.
    pub closed spec fn taken(&self) -> Seq<Chunk> {
        self.taken@
    }

    pub closed spec fn wf(&self) -> bool {
        &&& self.capacity >= 1
        &&& self.buffer@.len() <= self.capacity
        &&& self.taken@ + self.buffer@ == self.sent@
    }

    /// An open, empty channel of the given capacity.
    pub fn new(capacity: usize) -> (r: DeliveryChannel)
        requires
            capacity >= 1,
        ensures
            r.wf(),
            r.cap() == capacity,
            r.buffered() == Seq::<Chunk>::empty(),
            r.sent() == Seq::<Chunk>::empty(),
            r.end() is None,
            !r.cancelled(),
    {
        DeliveryChannel {
            buffer: Vec::new(),
            capacity,
            end: None,
            cancelled: false,
            sent: Ghost(Seq::empty()),
            taken: Ghost(Seq::empty()),
        }
    }

    pub fn capacity(&self) -> (r: usize)
        ensures
            r == self.cap(),
    {
        self.capacity
    }

    /// The number of chunks buffered and not yet taken.
    pub fn len(&self) -> (r: usize)
        ensures
            r == self.buffered().len(),
    {
        self.buffer.len()
    }

    pub fn is_cancelled(&self) -> (r: bool)
        ensures
            r == self.cancelled(),
    {
        self.cancelled
    }

    pub fn is_closed(&self) -> (r: bool)
        ensures
            r == self.end() is Some,
    {
        self.end.is_some()
    }

    /// Offers a chunk. It is taken in unless the consumer cancelled or the
    /// channel is full; it is never dropped.
    pub fn offer(&mut self, chunk: Chunk) -> (r: Offer)
        requires
            old(self).wf(),
            old(self).end() is None,
        ensures
            final(self).wf(),
            final(self).cap() == old(self).cap(),
            final(self).end() == old(self).end(),
            final(self).cancelled() == old(self).cancelled(),
            final(self).taken() == old(self).taken(),
            old(self).cancelled() ==> r == Offer::Closed(chunk),
            !old(self).cancelled() && old(self).buffered().len() == old(self).cap() ==> r
                == Offer::Full(chunk),
            !old(self).cancelled() && old(self).buffered().len() < old(self).cap() ==> r
                == Offer::Accepted,
            r is Accepted ==> final(self).buffered() == old(self).buffered().push(chunk)
                && final(self).sent() == old(self).sent().push(chunk),
            r !is Accepted ==> final(self).buffered() == old(self).buffered()
                && final(self).sent() == old(self).sent(),
    {
        if self.cancelled {
            return Offer::Closed(chunk);
        }
        if self.buffer.len() >= self.capacity {
            return Offer::Full(chunk);
        }
        let ghost c = chunk;
        self.buffer.push(chunk);
        self.sent = Ghost(self.sent@.push(c));
        assert(self.taken@ + self.buffer@ =~= self.sent@);
        Offer::Accepted
    }

    /// Takes the oldest buffered chunk; with none buffered, the end marker if
    /// the producer closed, else `Empty`.
    pub fn take(&mut self) -> (r: Taken)
        requires
            old(self).wf(),
        ensures
            final(self).wf(),
            final(self).cap() == old(self).cap(),
            final(self).end() == old(self).end(),
            final(self).cancelled() == old(self).cancelled(),
            final(self).sent() == old(self).sent(),
            old(self).buffered().len() > 0 ==> r == Taken::Chunk(old(self).buffered()[0])
                && final(self).buffered() == old(self).buffered().drop_first()
                && final(self).taken() == old(self).taken().push(old(self).buffered()[0]),
            old(self).buffered().len() == 0 ==> final(self).buffered() == old(self).buffered()
                && final(self).taken() == old(self).taken() && match old(self).end() {
                Some(m) => r == Taken::End(m),
                None => r is Empty,
            },
    {
        if self.buffer.len() > 0 {
            let ghost first = self.buffer@[0];
            let c = self.buffer.remove(0);
            self.taken = Ghost(self.taken@.push(first));
            assert(self.taken@ + self.buffer@ =~= self.sent@);
            return Taken::Chunk(c);
        }
        match &self.end {
            Some(EndMarker::Done) => Taken::End(EndMarker::Done),
            Some(EndMarker::Failed(cause)) => Taken::End(EndMarker::Failed(cause.clone())),
            None => Taken::Empty,
        }
    }

    /// Closes the channel from the producer's side. Only the first close
    /// counts: later ones leave the marker as it is.
    pub fn close(&mut self, marker: EndMarker)
        requires
            old(self).wf(),
        ensures
            final(self).wf(),
            final(self).cap() == old(self).cap(),
            final(self).buffered() == old(self).buffered(),
            final(self).sent() == old(self).sent(),
            final(self).taken() == old(self).taken(),
            final(self).cancelled() == old(self).cancelled(),
            final(self).end() == (match old(self).end() {
                Some(m) => Some(m),
                None => Some(marker),
            }),
    {
        if self.end.is_none() {
            self.end = Some(marker);
        }
    }

    /// Closes the channel from the consumer's side: the producer's next offer
    /// is refused. Cancelling twice is cancelling once.
    pub fn cancel(&mut self)
        requires
            old(self).wf(),
        ensures
            final(self).wf(),
            final(self).cancelled(),
            final(self).cap() == old(self).cap(),
            final(self).buffered() == old(self).buffered(),
            final(self).sent() == old(self).sent(),
            final(self).taken() == old(self).taken(),
            final(self).end() == old(self).end(),
    {
        self.cancelled = true;
    }

    /// Whatever has happened to a channel, it never buffers more chunks than
    /// its capacity, and the chunks taken followed by those buffered are
    /// exactly the chunks put in, in order.
    pub proof fn lemma_bounded_fifo(&self)
        requires
            self.wf(),
        ensures
            self.buffered().len() <= self.cap(),
            self.taken() + self.buffered() == self.sent(),
    {
    }
}

} // verus!
