//! Concrete [`BinaryReader`] over an in-memory byte buffer.
use crate::error::{Error, ErrorCode, Result};
use crate::io::BinaryReader;
use vstd::prelude::*;

verus! {

/// A [`BinaryReader`] over an owned, read-only in-memory byte buffer.
pub struct MemoryBinaryReader {
    data: Vec<u8>,
    pos: u64,
}

impl MemoryBinaryReader {
    /// The cursor never passes the end of the buffer.
    #[verifier::type_invariant]
    spec fn cursor_in_bounds(&self) -> bool {
        self.pos <= self.data@.len()
    }

    /// Constructs a reader over `data`, cursor at 0.
    pub fn new(data: Vec<u8>) -> (r: Self)
        ensures
            r.bytes() == data@,
            r.pos() == 0,
    {
        Self { data, pos: 0 }
    }

    /// Constructs a reader that owns `bytes`.
    pub fn from_vec(bytes: Vec<u8>) -> (r: Self)
        ensures
            r.bytes() == bytes@,
            r.pos() == 0,
    {
        Self::new(bytes)
    }

    /// Constructs a reader over a copy of `bytes`.
    pub fn from_slice(bytes: &[u8]) -> (r: Self)
        ensures
            r.bytes() == bytes@,
            r.pos() == 0,
    {
        Self::new(vstd::slice::slice_to_vec(bytes))
    }

    /// The total size of the underlying buffer.
    pub fn len(&self) -> (n: u64)
        ensures
            n == self.bytes().len(),
    {
        self.data.len() as u64
    }

    /// Whether the buffer is empty.
    pub fn is_empty(&self) -> (b: bool)
        ensures
            b == (self.bytes().len() == 0),
    {
        self.data.len() == 0
    }
}

impl BinaryReader for MemoryBinaryReader {
    closed spec fn bytes(&self) -> Seq<u8> {
        self.data@
    }

    closed spec fn pos(&self) -> nat {
        self.pos as nat
    }

    /// An in-memory buffer never fails on its own.
    open spec fn reliable(&self) -> bool {
        true
    }

    /// Never fails.
    fn read(&mut self, destination: &mut [u8]) -> (r: Result<usize>)
        ensures
            r is Ok,
    {
        proof {
            use_type_invariant(&*self);
        }
        if destination.len() == 0 {
            return Ok(0);
        }
        let available: usize = if (self.pos as u128) < (self.data.len() as u128) {
            self.data.len() - self.pos as usize
        } else {
            0
        };
        let to_copy: usize = if destination.len() < available {
            destination.len()
        } else {
            available
        };
        let start: usize = if to_copy > 0 { self.pos as usize } else { 0 };
        let ghost old_dest = destination@;
        let dlen = self.data.len();
        assert(start + to_copy <= self.data@.len());
        let mut i: usize = 0;
        while i < to_copy
            invariant
                to_copy <= destination@.len(),
                to_copy > 0 ==> start == self.pos,
                start + to_copy <= self.data@.len(),
                self.data@.len() == dlen,
                destination@.len() == old_dest.len(),
                0 <= i <= to_copy,
                forall|k: int| 0 <= k < i ==> destination@[k] == self.data@[start + k],
            decreases to_copy - i,
        {
            destination[i] = self.data[start + i];
            i = i + 1;
        }
        self.pos = self.pos + to_copy as u64;
        Ok(to_copy)
    }

    /// Fails with [`ErrorCode::InvalidArgument`] exactly when `offset` lies
    /// beyond the buffer.
    fn seek(&mut self, offset: u64) -> (r: Result<()>)
        ensures
            r is Ok <==> offset <= old(self).bytes().len(),
            r matches Err(e) ==> e.kind() == ErrorCode::InvalidArgument,
            r is Err ==> final(self).pos() == old(self).pos(),
    {
        if offset > self.data.len() as u64 {
            return Err(
                Error::invalid_argument(
                    "MemoryBinaryReader::seek: offset beyond the buffer extent",
                ),
            );
        }
        self.pos = offset;
        Ok(())
    }

    /// Always succeeds.
    fn position(&self) -> (r: Result<u64>)
        ensures
            r is Ok,
    {
        Ok(self.pos)
    }

    /// Always succeeds.
    fn size(&self) -> (r: Result<u64>)
        ensures
            r is Ok,
    {
        Ok(self.data.len() as u64)
    }
}

} // verus!
