use vstd::prelude::*;

verus! {

/// What one read of a byte source handed back.
pub enum ReadOutcome {
    /// The bytes read; none at all means the source is exhausted.
    Bytes(Vec<u8>),
    /// The read failed, for the cause given.
    Failed(String),
}

/// A readable byte source, read a bounded number of bytes at a time.
pub trait ByteSource {
    /// The bytes the source still holds, where they are known; `None` for a
    /// source, such as a file, whose reads only the outside world decides.
    open spec fn contents(&self) -> Option<Seq<u8>> {
        None
    }

    /// Reads at most `max` bytes. An empty `Bytes` means the source holds
    /// nothing more. A source whose contents are known hands out the next
    /// `max` of them, or all that are left, and never fails.
    fn read_bytes(&mut self, max: usize) -> (r: ReadOutcome)
        requires
            max > 0,
        ensures
            r is Bytes ==> r->Bytes_0@.len() <= max,
            old(self).contents() is Some ==> {
                let rest = old(self).contents()->Some_0;
                let n = if rest.len() <= max { rest.len() } else { max as nat };
                &&& r is Bytes
                &&& r->Bytes_0@ == rest.take(n as int)
                &&& final(self).contents() == Some(rest.skip(n as int))
            },
    ;
}

/// The bytes that a run of reads handed out, in order.
pub open spec fn joined(log: Seq<ReadOutcome>) -> Seq<u8>
    decreases log.len(),
{
    if log.len() == 0 {
        Seq::empty()
    } else {
        joined(log.drop_last()) + match log.last() {
            ReadOutcome::Bytes(b) => b@,
            ReadOutcome::Failed(_) => Seq::empty(),
        }
    }
}

/// Every read of the run handed out at least one byte.
pub open spec fn data_reads(log: Seq<ReadOutcome>) -> bool {
    forall|i: int| 0 <= i < log.len() ==> #[trigger] log[i] is Bytes && log[i]->Bytes_0@.len() > 0
}

/// No read of the run failed.
pub open spec fn no_failure(log: Seq<ReadOutcome>) -> bool {
    forall|i: int| 0 <= i < log.len() ==> #[trigger] log[i] is Bytes
}

/// What one read means for the chunk being filled.
pub enum Fill {
    /// Bytes were added to the pending chunk.
    More,
    /// The source is exhausted.
    Exhausted,
    /// The read failed, for the cause given.
    Failed(String),
}

/// Takes the result of one read into the pending chunk: bytes are appended,
/// no bytes mean the source is exhausted, and a failure passes its cause on.
pub fn absorb(pending: &mut Vec<u8>, outcome: ReadOutcome) -> (r: Fill)
    ensures
        match outcome {
            ReadOutcome::Bytes(b) => if b@.len() == 0 {
                r is Exhausted && final(pending)@ == old(pending)@
            } else {
                r is More && final(pending)@ == old(pending)@ + b@
            },
            ReadOutcome::Failed(c) => r == Fill::Failed(c) && final(pending)@ == old(pending)@,
        },
{
    match outcome {
        ReadOutcome::Bytes(mut bytes) => {
            if bytes.len() == 0 {
                Fill::Exhausted
            } else {
                pending.append(&mut bytes);
                Fill::More
            }
        },
        ReadOutcome::Failed(cause) => Fill::Failed(cause),
    }
}

/// A byte source held in memory.
pub struct MemorySource {
    data: Vec<u8>,
    position: usize,
}

impl MemorySource {
    /// The bytes not read yet.
    pub closed spec fn remaining(&self) -> Seq<u8> {
        self.data@.skip(self.position as int)
    }

    pub closed spec fn wf(&self) -> bool {
        self.position <= self.data@.len()
    }

    pub fn new(data: Vec<u8>) -> (r: MemorySource)
        ensures
            r.wf(),
            r.remaining() == data@,
            r.contents() == Some(data@),
    {
        let r = MemorySource { data, position: 0 };
        assert(r.data@.skip(0) =~= r.data@);
        r
    }
}

impl ByteSource for MemorySource {
    open spec fn contents(&self) -> Option<Seq<u8>> {
        if self.wf() {
            Some(self.remaining())
        } else {
            None
        }
    }

    /// Hands out the next bytes in order, at most `max` of them; a source read
    /// to its end yields no bytes.
    fn read_bytes(&mut self, max: usize) -> (r: ReadOutcome) {
        let len = self.data.len();
        let start = if self.position <= len { self.position } else { len };
        let end = if len - start <= max { len } else { start + max };
        let mut out: Vec<u8> = Vec::new();
        let mut i: usize = start;
        while i < end
            invariant
                start <= i <= end <= len,
                len == self.data@.len(),
                end - start <= max,
                out@ =~= self.data@.subrange(start as int, i as int),
            decreases end - i,
        {
            out.push(self.data[i]);
            i = i + 1;
        }
        self.position = end;
        assert(self.data@.skip(end as int) =~= old(self).data@.skip(start as int).skip(
            (end - start) as int,
        ));
        assert(out@ =~= old(self).data@.skip(start as int).take((end - start) as int));
        ReadOutcome::Bytes(out)
    }
}

} // verus!
