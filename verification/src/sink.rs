//! The truncating output sink.
//!
//! The sink owns the fixed-capacity output buffer together with a write
//! cursor. Each write copies as much of the given chunk as still fits and
//! silently discards the rest, so the process that emits text never fails
//! because the destination ran out of room.

use vstd::prelude::*;

verus! {

/// How many bytes of a chunk fit into a buffer of length `cap` when the
/// cursor stands at `cursor`.
pub open spec fn fitting_len(chunk: Seq<u8>, cursor: int, cap: int) -> int {
    vstd::math::min(chunk.len() as int, cap - cursor)
}

/// The buffer contents after a truncating write of `chunk` at `cursor`:
/// everything before the cursor is kept, the fitting prefix of the chunk
/// follows, and the tail beyond the written region keeps its old bytes.
pub open spec fn written_contents(buf: Seq<u8>, cursor: int, chunk: Seq<u8>) -> Seq<u8> {
    let fit = fitting_len(chunk, cursor, buf.len() as int);
    buf.take(cursor) + chunk.take(fit) + buf.skip(cursor + fit)
}

/// A bounded cursor over a fixed-length byte buffer. Writes through
/// [`WriteDemangled::write_string`] advance the cursor and never grow or
/// shrink the buffer itself.
pub struct WriteDemangled {
    data: Vec<u8>,
    written: usize,
}

impl WriteDemangled {
    /// The bytes currently held by the output buffer.
    pub closed spec fn contents(self) -> Seq<u8> {
        self.data@
    }

    /// The write cursor: how many bytes the writes since the last reset
    /// have filled.
    pub closed spec fn cursor(self) -> int {
        self.written as int
    }

    /// The cursor never runs past the end of the buffer.
    pub closed spec fn wf(self) -> bool {
        self.written <= self.data@.len()
    }

    /// A sink over a fresh zero-filled buffer of length `capacity`, with
    /// the cursor at the start.
    pub fn new(capacity: usize) -> (sink: WriteDemangled)
        ensures
            sink.wf(),
            sink.cursor() == 0,
            sink.contents().len() == capacity,
            forall|i: int| 0 <= i < capacity ==> sink.contents()[i] == 0u8,
    {
        let mut data: Vec<u8> = Vec::new();
        let mut i: usize = 0;
        while i < capacity
            invariant
                i <= capacity,
                data@.len() == i,
                forall|j: int| 0 <= j < i ==> data@[j] == 0u8,
            decreases capacity - i,
        {
            data.push(0u8);
            i = i + 1;
        }
        WriteDemangled { data, written: 0 }
    }

    /// Move the cursor back to the start of the buffer, keeping the bytes.
    pub fn reset(&mut self)
        ensures
            final(self).wf(),
            final(self).cursor() == 0,
            final(self).contents() == old(self).contents(),
    {
        self.written = 0;
    }

    /// How many bytes the writes since the last reset have filled.
    pub fn written(&self) -> (n: usize)
        ensures
            n == self.cursor(),
    {
        self.written
    }

    /// Read access to the underlying output buffer.
    pub fn buffer(&self) -> (buf: &Vec<u8>)
        ensures
            buf@ == self.contents(),
    {
        &self.data
    }

    /// Copy `min(chunk length, remaining capacity)` bytes of `s` to the
    /// cursor and advance it by that amount. Once the buffer is full,
    /// further writes are no-ops; truncation is silent and never an error.
    pub fn write_string(&mut self, s: &Vec<u8>)
        requires
            old(self).wf(),
        ensures
            final(self).wf(),
            final(self).cursor() == old(self).cursor()
                + fitting_len(s@, old(self).cursor(), old(self).contents().len() as int),
            final(self).contents() == written_contents(old(self).contents(), old(self).cursor(), s@),
    {
        let ghost orig = *self;
        let remaining = self.data.len() - self.written;
        let write_len = if s.len() < remaining {
            s.len()
        } else {
            remaining
        };
        let mut i: usize = 0;
        while i < write_len
            invariant
                orig.wf(),
                i <= write_len,
                self.written == orig.written,
                write_len == fitting_len(s@, orig.cursor(), orig.contents().len() as int),
                orig.cursor() + write_len <= self.data@.len(),
                self.data@.len() <= usize::MAX,
                s@.len() >= write_len,
                self.data@.len() == orig.contents().len(),
                forall|j: int| 0 <= j < orig.cursor() ==> self.data@[j] == orig.contents()[j],
                forall|j: int|
                    orig.cursor() <= j < orig.cursor() + i ==> self.data@[j] == s@[j - orig.cursor()],
                forall|j: int|
                    orig.cursor() + i <= j < self.data@.len() ==> self.data@[j] == orig.contents()[j],
            decreases write_len - i,
        {
            let idx = self.written + i;
            self.data.set(idx, s[i]);
            i = i + 1;
        }
        self.written = self.written + write_len;
        proof {
            let fit = fitting_len(s@, orig.cursor(), orig.contents().len() as int);
            assert(self.data@ =~= orig.contents().take(orig.cursor()) + s@.take(fit)
                + orig.contents().skip(orig.cursor() + fit));
        }
    }
}

} // verus!
