use crate::chunk::{
    all_full, chunks_of, concat, lemma_chunks_of_concat, lemma_concat_push, well_cut, Chunk,
    ONE_MB,
};
use crate::source::{absorb, data_reads, joined, no_failure, ByteSource, Fill, ReadOutcome};
use vstd::prelude::*;

verus! {

/// Where a reader stands in its source.
pub enum ReaderState {
    /// More chunks may follow.
    Reading,
    /// The source is exhausted and its last chunk handed out; the clean end is
    /// still to be reported.
    Ending,
    /// The clean end was reported.
    Completed,
    /// A read failed; the failure was reported.
    Failed,
    /// The source was released before the end, at the consumer's request.
    Released,
}

/// What one step of a reader produced.
pub enum Produced {
    Chunk(Chunk),
    Done,
    Failed(String),
}

/// Turns a byte source into numbered chunks of a fixed size. Each chunk but
/// the last holds exactly the chunk size; a read error ends the sequence with
/// a failure, distinct from the clean end. The source is released on either
/// end.
pub struct ChunkedReader<T> {
    source: Option<T>,
    chunk_size: usize,
    next_sequence: u64,
    state: ReaderState,
    consumed: Ghost<Seq<u8>>,
    emitted: Ghost<Seq<Seq<u8>>>,
    log: Ghost<Seq<ReadOutcome>>,
}

impl<T: ByteSource> ChunkedReader<T> {
    pub closed spec fn size(&self) -> nat {
        self.chunk_size as nat
    }

    /// The bytes that went into chunks, in order: until a failure, every
    /// byte the source handed out.
    pub closed spec fn consumed(&self) -> Seq<u8> {
        self.consumed@
    }

    /// Every outcome of a read of the source, in order.
    pub closed spec fn log(&self) -> Seq<ReadOutcome> {
        self.log@
    }

    /// The source the reader holds, if it still holds one.
    pub closed spec fn source(&self) -> Option<T> {
        self.source
    }

    /// The payloads of the chunks produced so far, in order.
    pub closed spec fn emitted(&self) -> Seq<Seq<u8>> {
        self.emitted@
    }

    pub closed spec fn state(&self) -> ReaderState {
        self.state
    }

    /// The reader still holds its source.
    pub closed spec fn holds_source(&self) -> bool {
        self.source is Some
    }

    pub closed spec fn wf(&self) -> bool {
        &&& self.chunk_size > 0
        &&& self.next_sequence as nat == self.emitted@.len()
        &&& (self.state is Reading) == (self.source is Some)
        &&& match self.state {
            ReaderState::Reading => all_full(self.emitted@, self.chunk_size as nat)
                && self.consumed@ == concat(self.emitted@) && self.consumed@ == joined(self.log@)
                && no_failure(self.log@),
            ReaderState::Ending | ReaderState::Completed => well_cut(
                self.emitted@,
                self.chunk_size as nat,
            ) && self.consumed@ == concat(self.emitted@) && self.consumed@ == joined(self.log@)
                && no_failure(self.log@),
            ReaderState::Failed => all_full(self.emitted@, self.chunk_size as nat),
            ReaderState::Released => true,
        }
    }

    /// A reader of `source` with the default chunk size of one mebibyte.
    pub fn new(source: T) -> (r: ChunkedReader<T>)
        ensures
            r.wf(),
            r.size() == ONE_MB,
            r.state() is Reading,
            r.holds_source(),
            r.source() == Some(source),
            r.log() == Seq::<ReadOutcome>::empty(),
            r.consumed() == Seq::<u8>::empty(),
            r.emitted() == Seq::<Seq<u8>>::empty(),
    {
        ChunkedReader::with_chunk_size(source, ONE_MB)
    }

    /// A reader of `source` cutting chunks of `chunk_size` bytes.
    pub fn with_chunk_size(source: T, chunk_size: usize) -> (r: ChunkedReader<T>)
        requires
            chunk_size > 0,
        ensures
            r.wf(),
            r.size() == chunk_size,
            r.state() is Reading,
            r.holds_source(),
            r.source() == Some(source),
            r.log() == Seq::<ReadOutcome>::empty(),
            r.consumed() == Seq::<u8>::empty(),
            r.emitted() == Seq::<Seq<u8>>::empty(),
    {
        ChunkedReader {
            source: Some(source),
            chunk_size,
            next_sequence: 0,
            state: ReaderState::Reading,
            consumed: Ghost(Seq::empty()),
            emitted: Ghost(Seq::empty()),
            log: Ghost(Seq::empty()),
        }
    }

    pub fn chunk_size(&self) -> (r: usize)
        ensures
            r == self.size(),
    {
        self.chunk_size
    }

    /// The number of chunks produced so far.
    pub fn produced(&self) -> (r: u64)
        requires
            self.wf(),
        ensures
            r == self.emitted().len(),
    {
        self.next_sequence
    }

    /// Whether the reader has reported its end, clean or failed, or was
    /// released.
    pub fn is_finished(&self) -> (r: bool)
        ensures
            r == (self.state() is Completed || self.state() is Failed || self.state() is Released),
    {
        match self.state {
            ReaderState::Completed | ReaderState::Failed | ReaderState::Released => true,
            _ => false,
        }
    }

    /// Releases the source at once, for a consumer that is no longer
    /// interested. Nothing more is read; what was produced stays as it was.
    pub fn release(&mut self)
        requires
            old(self).wf(),
        ensures
            final(self).wf(),
            !final(self).holds_source(),
            final(self).size() == old(self).size(),
            final(self).emitted() == old(self).emitted(),
            final(self).log() == old(self).log(),
            old(self).state() is Reading || old(self).state() is Ending
                ==> final(self).state() is Released,
            old(self).state() !is Reading && old(self).state() !is Ending ==> final(self).state()
                == old(self).state(),
    {
        if let Some(_) = self.source {
            self.source = None;
            self.state = ReaderState::Released;
        } else if let ReaderState::Ending = self.state {
            self.state = ReaderState::Released;
        }
    }

    /// Produces the next chunk: reads until the chunk is full or the source
    /// ends, asking each read for no more than the chunk still lacks. A source
    /// that ends with no bytes pending gives the clean end; a failed read gives
    /// the failure with its cause, and the bytes of the unfinished chunk are
    /// dropped. Either end releases the source. A source of more than
    /// `u64::MAX` chunks ends with a failure, before any read, rather than
    /// reuse a number. The reads of this call are `final(self).log()` past
    /// `old(self).log()`.
    pub fn next(&mut self) -> (r: Produced)
        requires
            old(self).wf(),
            old(self).state() is Reading || old(self).state() is Ending,
        ensures
            final(self).wf(),
            final(self).size() == old(self).size(),
            old(self).log().len() <= final(self).log().len(),
            final(self).log().take(old(self).log().len() as int) == old(self).log(),
            old(self).state() is Ending ==> r is Done && final(self).log() == old(self).log(),
            old(self).state() is Reading && old(self).emitted().len() == u64::MAX ==> r is Failed
                && final(self).log() == old(self).log(),
            old(self).state() is Reading && old(self).emitted().len() < u64::MAX ==> final(
                self).log().len() > old(self).log().len(),
            ({
                let new = final(self).log().skip(old(self).log().len() as int);
                match r {
                    Produced::Chunk(c) => {
                        &&& old(self).state() is Reading
                        &&& c.sequence_number == old(self).emitted().len()
                        &&& 0 < c.payload@.len() <= old(self).size()
                        &&& final(self).emitted() == old(self).emitted().push(c.payload@)
                        &&& final(self).consumed() == old(self).consumed() + c.payload@
                        &&& c.payload@ == joined(new)
                        &&& data_reads(new.drop_last())
                        &&& new.last() is Bytes
                        &&& (new.last()->Bytes_0@.len() == 0) == (final(self).state() is Ending)
                        &&& final(self).state() is Reading ==> c.payload@.len() == old(self).size()
                        &&& final(self).state() is Reading || final(self).state() is Ending
                    },
                    Produced::Done => {
                        &&& final(self).state() is Completed
                        &&& final(self).emitted() == old(self).emitted()
                        &&& final(self).consumed() == old(self).consumed()
                        &&& old(self).state() is Reading ==> new.len() == 1 && new[0] is Bytes
                            && new[0]->Bytes_0@.len() == 0
                    },
                    Produced::Failed(cause) => {
                        &&& final(self).state() is Failed
                        &&& final(self).emitted() == old(self).emitted()
                        &&& (new.len() > 0 && new.last() == ReadOutcome::Failed(cause)
                            && data_reads(new.drop_last())) || (new.len() == 0
                            && old(self).emitted().len() == u64::MAX)
                    },
                }
            }),
            !final(self).holds_source() <==> (final(self).state() !is Reading),
            old(self).state() is Reading && old(self).emitted().len() < u64::MAX && old(
                self).source()->Some_0.contents() is Some ==> ({
                let rest = old(self).source()->Some_0.contents()->Some_0;
                let size = old(self).size();
                &&& rest.len() == 0 ==> r is Done
                &&& rest.len() > 0 ==> r is Chunk && r->Chunk_0.payload@ == rest.take(
                    if rest.len() < size { rest.len() as int } else { size as int },
                )
                &&& 0 < rest.len() < size ==> final(self).state() is Ending
                &&& rest.len() >= size ==> final(self).state() is Reading && final(
                    self).source()->Some_0.contents() == Some(rest.skip(size as int))
            }),
    {
        if let ReaderState::Ending = self.state {
            self.state = ReaderState::Completed;
            assert(self.log@.skip(self.log@.len() as int) =~= Seq::<ReadOutcome>::empty());
            return Produced::Done;
        }
        if self.next_sequence == u64::MAX {
            self.source = None;
            self.state = ReaderState::Failed;
            assert(self.log@.skip(self.log@.len() as int) =~= Seq::<ReadOutcome>::empty());
            return Produced::Failed(String::from_str("chunk sequence numbers exhausted"));
        }
        let size = self.chunk_size;
        let mut src = self.source.take().unwrap();
        let mut buf: Vec<u8> = Vec::new();
        let ghost start = self.log@;
        let ghost known = src.contents();
        let mut end: Option<Fill> = None;
        assert(start.skip(start.len() as int) =~= Seq::<ReadOutcome>::empty());
        while buf.len() < size
            invariant_except_break
                end is None,
                data_reads(self.log@.skip(start.len() as int)),
            invariant
                buf@.len() <= size,
                size == self.chunk_size,
                size > 0,
                start.len() <= self.log@.len(),
                self.log@.take(start.len() as int) == start,
                buf@ == joined(self.log@.skip(start.len() as int)),
                self.emitted@ == old(self).emitted@,
                self.next_sequence == old(self).next_sequence,
                self.consumed@ == old(self).consumed@,
                self.state == old(self).state,
                self.source is None,
                known is Some ==> {
                    let rest0 = known->Some_0;
                    &&& buf@.len() <= rest0.len()
                    &&& src.contents() == Some(rest0.skip(buf@.len() as int))
                    &&& buf@ == rest0.take(buf@.len() as int)
                    &&& end is None || end == Some(Fill::Exhausted)
                    &&& end == Some(Fill::Exhausted) ==> buf@.len() == rest0.len()
                },
            ensures
                start.len() <= self.log@.len(),
                end is None ==> data_reads(self.log@.skip(start.len() as int)) && buf@.len()
                    == size,
                end is Some ==> {
                    let new = self.log@.skip(start.len() as int);
                    &&& buf@.len() < size
                    &&& new.len() > 0
                    &&& data_reads(new.drop_last())
                    &&& match end {
                        Some(Fill::Exhausted) => new.last() is Bytes && new.last()->Bytes_0@.len()
                            == 0,
                        Some(Fill::Failed(c)) => new.last() == ReadOutcome::Failed(c),
                        _ => false,
                    }
                },
            decreases size - buf@.len(),
        {
            let ghost pre = src.contents();
            let ghost pre_buf = buf@;
            let outcome = src.read_bytes(size - buf.len());
            let ghost seen = outcome;
            proof {
                if known is Some {
                    let rest0 = known->Some_0;
                    let rest = rest0.skip(pre_buf.len() as int);
                    let want = (size - pre_buf.len()) as nat;
                    let n = if rest.len() <= want { rest.len() } else { want };
                    assert(seen is Bytes && seen->Bytes_0@ == rest.take(n as int));
                    assert(rest.skip(n as int) =~= rest0.skip((pre_buf.len() + n) as int));
                    assert(pre_buf + rest.take(n as int) =~= rest0.take((pre_buf.len() + n) as int));
                }
            }
            let ghost before = self.log@;
            self.log = Ghost(self.log@.push(seen));
            proof {
                let nb = before.skip(start.len() as int);
                let na = self.log@.skip(start.len() as int);
                assert(na =~= nb.push(seen));
                assert(na.drop_last() =~= nb);
                assert(na.last() == seen);
                assert(self.log@.take(start.len() as int) =~= before.take(start.len() as int));
            }
            match absorb(&mut buf, outcome) {
                Fill::More => {},
                Fill::Exhausted => {
                    end = Some(Fill::Exhausted);
                    break;
                },
                Fill::Failed(cause) => {
                    end = Some(Fill::Failed(cause));
                    break;
                },
            }
            proof {
                let na = self.log@.skip(start.len() as int);
                assert forall|i: int| 0 <= i < na.len() implies #[trigger] na[i] is Bytes
                    && na[i]->Bytes_0@.len() > 0 by {
                    if i < na.len() - 1 {
                        assert(na[i] == na.drop_last()[i]);
                    }
                }
            }
        }
        let ghost new = self.log@.skip(start.len() as int);
        if let Some(Fill::Failed(cause)) = end {
            self.state = ReaderState::Failed;
            return Produced::Failed(cause);
        }
        proof {
            assert(no_failure(new)) by {
                assert forall|i: int| 0 <= i < new.len() implies #[trigger] new[i] is Bytes by {
                    if i < new.len() - 1 {
                        assert(new[i] == new.drop_last()[i]);
                    }
                }
            }
            lemma_joined_split(start, new);
            assert(self.log@ =~= start + new);
            lemma_no_failure_split(start, new);
        }
        let ghost old_emitted = self.emitted@;
        if buf.len() == 0 {
            assert(all_full(old_emitted, size as nat));
            assert(well_cut(old_emitted, size as nat)) by {
                if old_emitted.len() > 0 {
                    assert(old_emitted.last() == old_emitted[old_emitted.len() - 1]);
                }
            }
            assert(new.len() == 1) by {
                assert(joined(new) == joined(new.drop_last()));
                if new.len() > 1 {
                    lemma_joined_grows(new.drop_last(), 0);
                }
            }
            self.state = ReaderState::Completed;
            return Produced::Done;
        }
        proof {
            lemma_concat_push(old_emitted, buf@);
        }
        self.emitted = Ghost(old_emitted.push(buf@));
        self.consumed = Ghost(self.consumed@ + buf@);
        if end.is_none() {
            self.source = Some(src);
        } else {
            self.state = ReaderState::Ending;
        }
        let sequence_number = self.next_sequence;
        self.next_sequence = self.next_sequence + 1;
        Produced::Chunk(Chunk { sequence_number, payload: buf })
    }

    /// What a well-formed reader keeps to at every point: it holds its source
    /// exactly while reading; every chunk but a last one cut at the end of the
    /// source is full; and before any failure the chunks lay out the bytes read.
    pub proof fn lemma_shape(&self)
        requires
            self.wf(),
        ensures
            self.size() > 0,
            self.holds_source() <==> self.state() is Reading,
            self.state() is Reading || self.state() is Failed ==> all_full(
                self.emitted(),
                self.size(),
            ),
            self.state() is Ending || self.state() is Completed ==> well_cut(
                self.emitted(),
                self.size(),
            ),
            self.state() !is Failed && self.state() !is Released ==> self.consumed() == concat(
                self.emitted(),
            ) && self.consumed() == joined(self.log()) && no_failure(self.log()),
    {
    }

    /// Once a reader has ended cleanly, its chunks are exactly the source cut
    /// into pieces of the chunk size.
    pub proof fn lemma_clean_end_cuts_source(&self)
        requires
            self.wf(),
            self.state() is Completed || self.state() is Ending,
        ensures
            self.emitted() == chunks_of(self.consumed(), self.size()),
    {
        lemma_chunks_of_concat(self.emitted@, self.chunk_size as nat);
    }
}

/// The bytes of two runs of reads, one after the other.
pub proof fn lemma_joined_split(a: Seq<ReadOutcome>, b: Seq<ReadOutcome>)
    ensures
        joined(a + b) == joined(a) + joined(b),
    decreases b.len(),
{
    if b.len() == 0 {
        assert(a + b =~= a);
        assert(joined(a) + joined(b) =~= joined(a));
    } else {
        assert((a + b).drop_last() =~= a + b.drop_last());
        lemma_joined_split(a, b.drop_last());
        assert(joined(a + b) =~= joined(a) + joined(b));
    }
}

/// Two runs of reads without a failure make one.
pub proof fn lemma_no_failure_split(a: Seq<ReadOutcome>, b: Seq<ReadOutcome>)
    requires
        no_failure(a),
        no_failure(b),
    ensures
        no_failure(a + b),
{
    assert forall|i: int| 0 <= i < (a + b).len() implies #[trigger] (a + b)[i] is Bytes by {
        if i >= a.len() {
            assert((a + b)[i] == b[i - a.len()]);
        }
    }
}

/// A run of reads that each handed out bytes hands out at least as many
/// bytes as it has reads, so it is never empty once it has one.
pub proof fn lemma_joined_grows(log: Seq<ReadOutcome>, i: int)
    requires
        data_reads(log),
        0 <= i < log.len(),
    ensures
        joined(log).len() > 0,
    decreases log.len(),
{
    if i == log.len() - 1 {
        assert(log.last() is Bytes);
    } else {
        assert(data_reads(log.drop_last())) by {
            assert forall|j: int| 0 <= j < log.drop_last().len() implies #[trigger] log.drop_last()[j] is Bytes
                && log.drop_last()[j]->Bytes_0@.len() > 0 by {
                assert(log.drop_last()[j] == log[j]);
            }
        }
        lemma_joined_grows(log.drop_last(), i);
    }
}

} // verus!
