//! Byte-level read cursor over an underlying input.
use crate::error::{Error, ErrorCode, Result};
use crate::text::decimal_string;
use vstd::prelude::*;

verus! {

/// How many bytes a read of `want` bytes at `pos` yields from an input of
/// `len` bytes: all of them, or what is left before the end.
pub open spec fn read_count(want: nat, pos: nat, len: nat) -> nat {
    if pos + want <= len {
        want
    } else if pos <= len {
        (len - pos) as nat
    } else {
        0
    }
}

/// A byte-level read cursor over an underlying input.
///
/// The abstract state of a reader is the sequence of bytes of its input
/// (`bytes`) and the cursor position (`pos`). Every read is a copy of the
/// input bytes at the cursor, which then advances by the count read.
pub trait BinaryReader {
    /// The whole underlying input.
    spec fn bytes(&self) -> Seq<u8>;

    /// The absolute position of the read cursor.
    spec fn pos(&self) -> nat;

    /// Whether the transport never fails on its own: reads, `position` and
    /// `size` always succeed, and `seek` fails only past the end of input.
    spec fn reliable(&self) -> bool;

    /// Reads up to `destination.len()` bytes into `destination`, returning the
    /// count read, which is less than requested only at end of input.
    fn read(&mut self, destination: &mut [u8]) -> (r: Result<usize>)
        ensures
            final(self).bytes() == old(self).bytes(),
            final(self).reliable() == old(self).reliable(),
            final(destination)@.len() == old(destination)@.len(),
            old(self).reliable() ==> r is Ok,
            r matches Ok(n) ==> {
                &&& n == read_count(
                    old(destination)@.len(),
                    old(self).pos(),
                    old(self).bytes().len(),
                )
                &&& forall|k: int|
                    0 <= k < n ==> #[trigger] final(destination)@[k] == old(self).bytes()[old(
                        self,
                    ).pos() + k]
                &&& final(self).pos() == old(self).pos() + n
            },
    ;

    /// Moves the read cursor to the absolute byte `offset`.
    fn seek(&mut self, offset: u64) -> (r: Result<()>)
        ensures
            final(self).bytes() == old(self).bytes(),
            final(self).reliable() == old(self).reliable(),
            old(self).reliable() ==> (r is Ok <==> offset <= old(self).bytes().len()),
            r is Ok ==> final(self).pos() == offset,
    ;

    /// The current absolute cursor position.
    fn position(&self) -> (r: Result<u64>)
        ensures
            self.reliable() ==> r is Ok,
            r matches Ok(p) ==> p == self.pos(),
    ;

    /// The total size in bytes of the underlying input.
    fn size(&self) -> (r: Result<u64>)
        ensures
            self.reliable() ==> r is Ok,
            r matches Ok(s) ==> s == self.bytes().len(),
    ;
}

/// Reads exactly `buf.len()` bytes or fails with [`ErrorCode::OutOfRange`],
/// naming `what` was being read.
pub fn read_exact_or<R: BinaryReader>(reader: &mut R, buf: &mut [u8], what: &str) -> (r: Result<()>)
    ensures
        final(reader).bytes() == old(reader).bytes(),
        final(reader).reliable() == old(reader).reliable(),
        final(buf)@.len() == old(buf)@.len(),
        old(reader).reliable() ==> (r matches Err(e) ==> e.kind() == ErrorCode::OutOfRange),
        old(reader).reliable() ==> (r is Ok <==> old(reader).pos() + old(buf)@.len() <= old(
            reader,
        ).bytes().len() || old(buf)@.len() == 0),
        r is Ok ==> {
            &&& old(buf)@.len() > 0 ==> old(reader).pos() + old(buf)@.len() <= old(
                reader,
            ).bytes().len()
            &&& forall|k: int|
                0 <= k < old(buf)@.len() ==> #[trigger] final(buf)@[k] == old(reader).bytes()[old(
                    reader,
                ).pos() + k]
            &&& final(reader).pos() == old(reader).pos() + old(buf)@.len()
        },
{
    let n = reader.read(buf)?;
    if n != buf.len() {
        let mut message = String::from_str("unexpected end of input while reading ");
        message.append(what);
        message.append(": wanted ");
        message.append(decimal_string(buf.len() as u64).as_str());
        message.append(" bytes, got ");
        message.append(decimal_string(n as u64).as_str());
        return Err(Error::out_of_range(message.as_str()));
    }
    Ok(())
}

} // verus!
