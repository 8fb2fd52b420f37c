//! Framing matched records into size-bounded output chunks.
use vstd::prelude::*;
use crate::text::NEWLINE;

verus! {

/// Size at which a chunk is handed on to the writer: 128 KiB.
pub const CHUNK_FLUSH_BYTES: usize = 131072;

/// The bytes of `cs`, one chunk after the other.
pub open spec fn concat_chunks(cs: Seq<Vec<u8>>) -> Seq<u8>
    decreases cs.len(),
{
    if cs.len() == 0 {
        Seq::empty()
    } else {
        concat_chunks(cs.drop_last()) + cs.last()@
    }
}

/// Records as they are written out: each followed by a newline.
pub open spec fn framed(records: Seq<Seq<u8>>) -> Seq<u8>
    decreases records.len(),
{
    if records.len() == 0 {
        Seq::empty()
    } else {
        framed(records.drop_last()) + records.last() + seq![NEWLINE]
    }
}

/// A worker's accumulation buffer: the chunk being filled, and the filled
/// chunks that wait to be handed to the writer.
pub struct ChunkBuffer {
    current: Vec<u8>,
    ready: Vec<Vec<u8>>,
    threshold: usize,
}

impl ChunkBuffer {
    /// Everything framed so far and not yet taken: the waiting chunks, then
    /// the chunk being filled.
    pub closed spec fn content(&self) -> Seq<u8> {
        concat_chunks(self.ready@) + self.current@
    }

    /// The bytes of the chunk being filled.
    pub closed spec fn pending(&self) -> Seq<u8> {
        self.current@
    }

    /// The number of chunks that wait to be taken.
    pub closed spec fn ready_count(&self) -> nat {
        self.ready@.len()
    }

    /// The size at which a chunk is set aside.
    pub closed spec fn limit(&self) -> nat {
        self.threshold as nat
    }

    /// The chunk being filled stays under the limit.
    pub closed spec fn wf(&self) -> bool {
        self.threshold > 0 && self.current@.len() < self.threshold
    }

    /// An empty buffer whose chunks are set aside at 128 KiB.
    pub fn new() -> (r: ChunkBuffer)
        ensures
            r.wf(),
            r.content() == Seq::<u8>::empty(),
            r.ready_count() == 0,
            r.limit() == CHUNK_FLUSH_BYTES,
    {
        ChunkBuffer::with_threshold(CHUNK_FLUSH_BYTES)
    }

    /// An empty buffer whose chunks are set aside at `threshold` bytes.
    pub fn with_threshold(threshold: usize) -> (r: ChunkBuffer)
        requires
            threshold > 0,
        ensures
            r.wf(),
            r.content() == Seq::<u8>::empty(),
            r.ready_count() == 0,
            r.limit() == threshold,
    {
        let r = ChunkBuffer { current: Vec::new(), ready: Vec::new(), threshold };
        assert(r.content() =~= Seq::<u8>::empty());
        r
    }

    /// Sets the chunk being filled aside, when it holds anything.
    fn set_aside(&mut self)
        ensures
            final(self).content() == old(self).content(),
            final(self).current@ == Seq::<u8>::empty(),
            final(self).threshold == old(self).threshold,
            old(self).current@.len() == 0 ==> final(self).ready@ == old(self).ready@,
            old(self).current@.len() > 0 ==> final(self).ready@.len() == old(self).ready@.len() + 1,
    {
        if self.current.len() > 0 {
            let mut full: Vec<u8> = Vec::new();
            core::mem::swap(&mut self.current, &mut full);
            let ghost before = self.ready@;
            self.ready.push(full);
            assert(self.ready@.drop_last() == before);
            assert(concat_chunks(self.ready@) == concat_chunks(before) + full@);
            assert(self.content() =~= concat_chunks(before) + full@);
        }
    }

    /// Appends one record and its newline; a chunk that reaches the limit is
    /// set aside.
    pub fn push_line(&mut self, line: &[u8])
        requires
            old(self).wf(),
        ensures
            final(self).wf(),
            final(self).limit() == old(self).limit(),
            final(self).content() == old(self).content() + line@ + seq![NEWLINE],
    {
        let ghost before = self.content();
        self.current.extend_from_slice(line);
        self.current.push(NEWLINE);
        assert(self.content() =~= before + line@ + seq![NEWLINE]);
        if self.current.len() >= self.threshold {
            self.set_aside();
        }
    }

    /// Sets the chunk being filled aside, whatever its size, so that nothing
    /// stays pending.
    pub fn flush(&mut self)
        requires
            old(self).wf(),
        ensures
            final(self).wf(),
            final(self).limit() == old(self).limit(),
            final(self).content() == old(self).content(),
            final(self).pending() == Seq::<u8>::empty(),
    {
        self.set_aside();
    }

    /// Hands out the chunks set aside, oldest first.
    pub fn take_ready(&mut self) -> (r: Vec<Vec<u8>>)
        requires
            old(self).wf(),
        ensures
            final(self).wf(),
            final(self).limit() == old(self).limit(),
            final(self).ready_count() == 0,
            final(self).pending() == old(self).pending(),
            concat_chunks(r@) + final(self).content() == old(self).content(),
    {
        let mut out: Vec<Vec<u8>> = Vec::new();
        core::mem::swap(&mut self.ready, &mut out);
        assert(self.content() =~= self.current@);
        out
    }
}

} // verus!
