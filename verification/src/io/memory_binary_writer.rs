//! Concrete [`BinaryWriter`] over an in-memory byte buffer.
use crate::error::{Error, ErrorCode, Result};
use crate::io::binary_writer::overwrite_at;
use crate::io::BinaryWriter;
use vstd::prelude::*;

verus! {

/// A [`BinaryWriter`] accumulating bytes in an owned `Vec<u8>`.
///
/// `seek` may move the cursor anywhere within the current extent
/// (`0..=len`); a write at the cursor overwrites in place and grows the
/// buffer when it runs past the end.
pub struct MemoryBinaryWriter {
    buffer: Vec<u8>,
    pos: u64,
}

impl MemoryBinaryWriter {
    /// An empty writer, cursor at 0.
    pub fn new() -> (w: Self)
        ensures
            w.bytes() == Seq::<u8>::empty(),
            w.pos() == 0,
    {
        Self { buffer: Vec::new(), pos: 0 }
    }

    /// The accumulated bytes.
    pub fn buffer(&self) -> (b: &[u8])
        ensures
            b@ == self.bytes(),
    {
        self.buffer.as_slice()
    }

    /// Moves the accumulated bytes out, leaving an empty buffer and cursor 0.
    pub fn take_buffer(&mut self) -> (out: Vec<u8>)
        ensures
            out@ == old(self).bytes(),
            final(self).bytes() == Seq::<u8>::empty(),
            final(self).pos() == 0,
    {
        let mut out: Vec<u8> = Vec::new();
        std::mem::swap(&mut out, &mut self.buffer);
        self.pos = 0;
        out
    }

    /// The number of accumulated bytes.
    pub fn len(&self) -> (n: u64)
        ensures
            n == self.bytes().len(),
    {
        self.buffer.len() as u64
    }

    /// Whether no byte has been accumulated.
    pub fn is_empty(&self) -> (b: bool)
        ensures
            b == (self.bytes().len() == 0),
    {
        self.buffer.len() == 0
    }
}

impl BinaryWriter for MemoryBinaryWriter {
    closed spec fn bytes(&self) -> Seq<u8> {
        self.buffer@
    }

    closed spec fn pos(&self) -> nat {
        self.pos as nat
    }

    /// An in-memory buffer never fails on its own.
    open spec fn reliable(&self) -> bool {
        true
    }

    /// Writes all of `source`; fails with [`ErrorCode::InvalidArgument`] only
    /// when the end position would not fit the address space.
    fn write(&mut self, source: &[u8]) -> (r: Result<usize>)
        ensures
            r matches Ok(n) ==> n == source@.len(),
            r is Err ==> old(self).pos() + source@.len() > usize::MAX,
            r matches Err(e) ==> e.kind() == ErrorCode::InvalidArgument,
    {
        if source.len() as u128 + self.pos as u128 > usize::MAX as u128 {
            return Err(Error::invalid_argument("MemoryBinaryWriter::write: position overflow"));
        }
        let start = self.pos as usize;
        let end: usize = start + source.len();
        let ghost old_buf = self.buffer@;
        while self.buffer.len() < end
            invariant
                end == start + source@.len(),
                self.buffer@.len() <= end || self.buffer@.len() == old_buf.len(),
                old_buf.len() <= self.buffer@.len(),
                forall|k: int| 0 <= k < old_buf.len() ==> self.buffer@[k] == old_buf[k],
                forall|k: int| old_buf.len() <= k < self.buffer@.len() ==> self.buffer@[k] == 0u8,
            decreases end - self.buffer@.len(),
        {
            self.buffer.push(0u8);
        }
        let ghost mid = self.buffer@;
        assert(forall|k: int| 0 <= k < old_buf.len() ==> mid[k] == old_buf[k]);
        assert(forall|k: int| old_buf.len() <= k < mid.len() ==> mid[k] == 0u8);
        assert(mid.len() == if end > old_buf.len() { end as int } else { old_buf.len() as int });
        let mut i: usize = 0;
        while i < source.len()
            invariant
                end == start + source@.len(),
                end <= self.buffer@.len(),
                self.buffer@.len() == mid.len(),
                0 <= i <= source@.len(),
                forall|k: int| 0 <= k < i ==> self.buffer@[start + k] == source@[k],
                forall|k: int|
                    0 <= k < self.buffer@.len() && !(start <= k < start + i) ==> self.buffer@[k]
                        == mid[k],
            decreases source@.len() - i,
        {
            self.buffer.set(start + i, source[i]);
            i = i + 1;
        }
        assert(source@.subrange(0, source@.len() as int) =~= source@);
        let ghost expect = overwrite_at(old_buf, start as nat, source@);
        assert(self.buffer@.len() == expect.len());
        assert forall|k: int| 0 <= k < expect.len() implies self.buffer@[k] == expect[k] by {
            if start <= k < start + source@.len() {
                assert(self.buffer@[start + (k - start)] == source@[k - start]);
            } else {
                assert(self.buffer@[k] == mid[k]);
                if k < old_buf.len() {
                    assert(mid[k] == old_buf[k]);
                } else {
                    assert(mid[k] == 0u8);
                }
            }
        }
        assert(self.buffer@ =~= expect);
        self.pos = end as u64;
        Ok(source.len())
    }

    /// Fails with [`ErrorCode::InvalidArgument`] exactly when `offset` lies
    /// beyond the current extent.
    fn seek(&mut self, offset: u64) -> (r: Result<()>)
        ensures
            r is Ok <==> offset <= old(self).bytes().len(),
            r matches Err(e) ==> e.kind() == ErrorCode::InvalidArgument,
            r is Err ==> final(self).pos() == old(self).pos(),
    {
        if offset > self.buffer.len() as u64 {
            return Err(
                Error::invalid_argument(
                    "MemoryBinaryWriter::seek: offset beyond the current buffer extent",
                ),
            );
        }
        self.pos = offset;
        Ok(())
    }

    /// Always succeeds.
    fn position(&self) -> (r: Result<u64>)
        ensures
            r is Ok,
    {
        Ok(self.pos)
    }

    /// A no-op that always succeeds.
    fn flush(&mut self) -> (r: Result<()>)
        ensures
            r is Ok,
    {
        Ok(())
    }
}

} // verus!
