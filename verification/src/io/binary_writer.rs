//! Byte-level write cursor over an underlying output.
use crate::error::{Error, ErrorCode, Result};
use crate::text::decimal_string;
use vstd::prelude::*;

verus! {

/// `out` after writing `src` at position `at`: bytes before `at` are kept (a
/// gap past the old end is zero-filled), `src` lands at `at..at+src.len()`,
/// and bytes after it are kept.
pub open spec fn overwrite_at(out: Seq<u8>, at: nat, src: Seq<u8>) -> Seq<u8> {
    let len = if at + src.len() > out.len() { at + src.len() } else { out.len() };
    Seq::new(
        len as nat,
        |i: int|
            if at <= i < at + src.len() {
                src[i - at]
            } else if i < out.len() {
                out[i]
            } else {
                0u8
            },
    )
}

/// Writing `x` at `at` and then `y` right behind it is writing `x + y` at
/// `at`.
pub proof fn lemma_overwrite_at_concat(out: Seq<u8>, at: nat, x: Seq<u8>, y: Seq<u8>)
    ensures
        overwrite_at(overwrite_at(out, at, x), at + x.len(), y) == overwrite_at(out, at, x + y),
{
    assert(overwrite_at(overwrite_at(out, at, x), at + x.len(), y) =~= overwrite_at(out, at, x + y));
}

/// A byte-level write cursor over an underlying output.
///
/// The abstract state of a writer is the sequence of bytes written so far
/// (`bytes`) and the cursor position (`pos`). A write lands at the cursor,
/// which then advances past the written bytes.
pub trait BinaryWriter {
    /// The whole output written so far.
    spec fn bytes(&self) -> Seq<u8>;

    /// The absolute position of the write cursor.
    spec fn pos(&self) -> nat;

    /// Whether the transport never fails on its own: writes that fit the
    /// address space succeed in full, `position` and `flush` always succeed,
    /// and `seek` fails only past the end of the output.
    spec fn reliable(&self) -> bool;

    /// Writes `source` (or a prefix of it) at the cursor, returning the count
    /// written.
    fn write(&mut self, source: &[u8]) -> (r: Result<usize>)
        ensures
            final(self).reliable() == old(self).reliable(),
            old(self).reliable() && old(self).pos() + source@.len() <= usize::MAX ==> (r matches Ok(
                n,
            ) && n == source@.len()),
            r is Err ==> final(self).bytes() == old(self).bytes(),
            r matches Ok(n) ==> {
                &&& n <= source@.len()
                &&& final(self).bytes() == overwrite_at(
                    old(self).bytes(),
                    old(self).pos(),
                    source@.subrange(0, n as int),
                )
                &&& final(self).pos() == old(self).pos() + n
            },
    ;

    /// Moves the write cursor to the absolute byte `offset`.
    fn seek(&mut self, offset: u64) -> (r: Result<()>)
        ensures
            final(self).bytes() == old(self).bytes(),
            final(self).reliable() == old(self).reliable(),
            old(self).reliable() ==> (r is Ok <==> offset <= old(self).bytes().len()),
            r is Ok ==> final(self).pos() == offset,
    ;

    /// The current absolute cursor position.
    fn position(&self) -> (r: Result<u64>)
        ensures
            self.reliable() ==> r is Ok,
            r matches Ok(p) ==> p == self.pos(),
    ;

    /// Pushes buffered output to the transport; the abstract state is kept.
    fn flush(&mut self) -> (r: Result<()>)
        ensures
            final(self).bytes() == old(self).bytes(),
            final(self).pos() == old(self).pos(),
            final(self).reliable() == old(self).reliable(),
            old(self).reliable() ==> r is Ok,
    ;
}

/// Writes all of `buf` or fails with [`ErrorCode::Unknown`], naming `what`
/// was being written.
pub fn write_all_or<W: BinaryWriter>(writer: &mut W, buf: &[u8], what: &str) -> (r: Result<()>)
    ensures
        final(writer).reliable() == old(writer).reliable(),
        old(writer).reliable() && old(writer).pos() + buf@.len() <= usize::MAX ==> r is Ok,
        r is Ok ==> {
            &&& final(writer).bytes() == overwrite_at(old(writer).bytes(), old(writer).pos(), buf@)
            &&& final(writer).pos() == old(writer).pos() + buf@.len()
        },
{
    let n = writer.write(buf)?;
    if n != buf.len() {
        let mut message = String::from_str("short write while writing ");
        message.append(what);
        message.append(": wanted ");
        message.append(decimal_string(buf.len() as u64).as_str());
        message.append(" bytes, wrote ");
        message.append(decimal_string(n as u64).as_str());
        return Err(Error::unknown(message.as_str()));
    }
    assert(buf@.subrange(0, n as int) =~= buf@);
    Ok(())
}

} // verus!
