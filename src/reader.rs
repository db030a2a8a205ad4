//! A cursor over received bytes that can be bounded to a window.
use vstd::prelude::*;
use crate::types::{ErrorKind, KafkaError};

verus! {

/// Reads bytes in order from a buffer, up to a movable limit.
///
/// The limit lets a decoder confine a nested value to exactly the bytes that its frame
/// declares: a read that would cross it fails as a read past the end of input does.
pub struct Reader {
    data: Vec<u8>,
    pos: usize,
    limit: usize,
}

impl Reader {
    /// All bytes of the buffer, consumed or not.
    pub closed spec fn bytes(&self) -> Seq<u8> {
        self.data@
    }

    /// The index of the next byte to be read.
    pub closed spec fn position(&self) -> int {
        self.pos as int
    }

    /// The index past the last byte that may be read.
    pub closed spec fn bound(&self) -> int {
        self.limit as int
    }

    pub open spec fn wf(&self) -> bool {
        0 <= self.position() <= self.bound() <= self.bytes().len()
    }

    /// The bytes that are left to read before the limit.
    pub open spec fn remaining(&self) -> Seq<u8> {
        self.bytes().subrange(self.position(), self.bound())
    }

    /// Consuming `n` bytes leaves the remaining bytes after the first `n`.
    pub proof fn lemma_advance(before: Reader, after: Reader, n: int)
        requires
            before.wf(),
            after.wf(),
            after.bytes() == before.bytes(),
            after.bound() == before.bound(),
            after.position() == before.position() + n,
            0 <= n,
        ensures
            after.remaining() == before.remaining().skip(n),
    {
        assert(after.remaining() =~= before.remaining().skip(n));
    }

    /// A reader over all of `data`.
    pub fn new(data: Vec<u8>) -> (r: Reader)
        ensures
            r.wf(),
            r.bytes() == data@,
            r.position() == 0,
            r.bound() == data@.len(),
    {
        let limit = data.len();
        Reader { data, pos: 0, limit }
    }

    /// How many bytes are left before the limit.
    pub fn remaining_len(&self) -> (r: usize)
        requires
            self.wf(),
        ensures
            r == self.remaining().len(),
    {
        self.limit - self.pos
    }

    /// Whether every byte before the limit has been read.
    pub fn eof(&self) -> (r: bool)
        requires
            self.wf(),
        ensures
            r == (self.remaining().len() == 0),
    {
        self.pos == self.limit
    }

    /// Reads the next `n` bytes, or fails with `Truncated` where fewer are left.
    pub fn read_bytes(&mut self, n: usize) -> (r: Result<Vec<u8>, KafkaError>)
        requires
            old(self).wf(),
        ensures
            final(self).wf(),
            final(self).bytes() == old(self).bytes(),
            final(self).bound() == old(self).bound(),
            n <= old(self).remaining().len() ==> r is Ok && r->Ok_0@ == old(self).remaining().take(n as int)
                && final(self).position() == old(self).position() + n,
            n > old(self).remaining().len() ==> r is Err && r->Err_0.kind == ErrorKind::Truncated
                && final(self).position() == old(self).position(),
    {
        if n > self.limit - self.pos {
            return Err(KafkaError::from_error(ErrorKind::Truncated, "unexpected end of input"));
        }
        let mut out: Vec<u8> = Vec::with_capacity(n);
        let start = self.pos;
        while self.pos < start + n
            invariant
                self.wf(),
                start <= self.pos <= start + n <= self.limit,
                self.data@ == old(self).data@,
                self.limit == old(self).limit,
                start == old(self).pos,
                out@ == self.data@.subrange(start as int, self.pos as int),
            decreases start + n - self.pos,
        {
            out.push(self.data[self.pos]);
            self.pos = self.pos + 1;
        }
        assert(out@ =~= old(self).remaining().take(n as int));
        Ok(out)
    }

    /// Confines reading to the next `len` bytes; returns the limit in force before, for
    /// [`Reader::restore_limit`].
    pub fn limit_to(&mut self, len: usize) -> (saved: usize)
        requires
            old(self).wf(),
            len <= old(self).remaining().len(),
        ensures
            final(self).wf(),
            final(self).bytes() == old(self).bytes(),
            final(self).position() == old(self).position(),
            final(self).bound() == old(self).position() + len,
            saved == old(self).bound(),
    {
        let saved = self.limit;
        self.limit = self.pos + len;
        saved
    }

    /// Lifts the limit back to `saved`, a limit that was in force before.
    pub fn restore_limit(&mut self, saved: usize)
        requires
            old(self).wf(),
            old(self).bound() <= saved <= old(self).bytes().len(),
        ensures
            final(self).wf(),
            final(self).bytes() == old(self).bytes(),
            final(self).position() == old(self).position(),
            final(self).bound() == saved,
    {
        self.limit = saved;
    }
}

} // verus!
