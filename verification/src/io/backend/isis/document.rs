//! Scans an ISIS3 document from the start of a reader: the label, up to
//! its last bare `End` line, and where the pixel block begins.
use super::label::{assignments, label_readable, parse_label, parsed_fields};
use crate::error::{Error, ErrorCode, Result};
use crate::io::binary_reader::BinaryReader;
use crate::io::storage_model::StorageModel;
use vstd::prelude::*;
use vstd::utf8::*;

verus! {

/// How much of the front of a document is scanned for the label.
pub const MAX_LABEL_SCAN: u64 = 4194304;

/// A scanned ISIS3 document: its flat per-image model, and the byte length
/// of its label (the pixel block starts right after it).
#[derive(Debug)]
pub struct IsisDocument {
    /// The parsed flat per-image model.
    pub image: StorageModel,
    /// Label length in bytes, including the final `"End\n"`.
    pub label_bytes: u64,
}

/// Whether `b[i..i + 5]` is `"\nEnd\n"`.
pub open spec fn end_marker_at(b: Seq<u8>, i: int) -> bool {
    &&& 0 <= i
    &&& i + 5 <= b.len()
    &&& b[i] == 10 && b[i + 1] == 69 && b[i + 2] == 110 && b[i + 3] == 100 && b[i + 4] == 10
}

/// The last position at or before `i` where `"\nEnd\n"` starts.
pub open spec fn last_end_marker(b: Seq<u8>, i: int) -> Option<int>
    decreases i + 1,
{
    if i < 0 {
        None
    } else if end_marker_at(b, i) {
        Some(i)
    } else {
        last_end_marker(b, i - 1)
    }
}

/// The label of the scanned front `pre` of a document: the bytes up to and
/// including its last `"\nEnd\n"`.
pub open spec fn label_length(pre: Seq<u8>) -> Option<int> {
    match last_end_marker(pre, pre.len() - 5) {
        Some(i) => Some(i + 5),
        None => None,
    }
}

/// Whether the front `pre` of a document holds a readable label.
pub open spec fn document_readable(pre: Seq<u8>) -> bool {
    &&& valid_utf8(pre)
    &&& label_length(pre) is Some
    &&& valid_utf8(pre.subrange(0, label_length(pre)->0))
    &&& label_readable(
        decode_utf8(pre.subrange(0, label_length(pre)->0)),
        assignments(decode_utf8(pre.subrange(0, label_length(pre)->0))),
    )
}

/// The front of a document of `bytes` that is scanned.
pub open spec fn scanned_front(bytes: Seq<u8>) -> Seq<u8> {
    if bytes.len() <= MAX_LABEL_SCAN {
        bytes
    } else {
        bytes.subrange(0, MAX_LABEL_SCAN as int)
    }
}

fn find_last_end_marker(b: &[u8]) -> (r: Option<usize>)
    ensures
        r matches Some(i) ==> label_length(b@) == Some(i + 5) && i + 5 <= b@.len(),
        r is None ==> label_length(b@) is None,
{
    let n = b.len();
    if n < 5 {
        proof {
            assert(last_end_marker(b@, n - 5) is None) by {
                reveal_with_fuel(last_end_marker, 6);
            }
        }
        return None;
    }
    let mut i: usize = n - 5;
    loop
        invariant
            n == b@.len(),
            n >= 5,
            i <= n - 5,
            last_end_marker(b@, n - 5) == last_end_marker(b@, i as int),
        decreases i,
    {
        if b[i] == 10 && b[i + 1] == 69 && b[i + 2] == 110 && b[i + 3] == 100 && b[i + 4] == 10 {
            return Some(i);
        }
        if i == 0 {
            assert(last_end_marker(b@, -1) is None);
            return None;
        }
        i = i - 1;
    }
}

/// Reads the front of the document (at most [`MAX_LABEL_SCAN`] bytes),
/// takes the label up to its last `"\nEnd\n"` and parses it. On a reliable
/// reader this succeeds exactly when the scanned front is UTF-8 and holds
/// such a readable label ([`document_readable`]); any result names the
/// label's length and model. [`ErrorCode::InvalidArgument`] for a malformed
/// label; a failing reader's error is passed on.
pub fn read_document<R: BinaryReader>(reader: &mut R) -> (r: Result<IsisDocument>)
    ensures
        final(reader).bytes() == old(reader).bytes(),
        old(reader).reliable() ==> (r is Ok <==> document_readable(scanned_front(old(reader).bytes()))),
        r matches Ok(doc) ==> {
            let pre = scanned_front(old(reader).bytes());
            &&& label_length(pre) == Some(doc.label_bytes as int)
            &&& doc.image.field_map() == parsed_fields(
                assignments(decode_utf8(pre.subrange(0, doc.label_bytes as int))),
            )
        },
        old(reader).reliable() ==> (r matches Err(e) ==> e.kind() == ErrorCode::InvalidArgument),
{
    let size = reader.size()?;
    let scan = if size < MAX_LABEL_SCAN {
        size
    } else {
        MAX_LABEL_SCAN
    };
    reader.seek(0)?;
    let ghost bytes = reader.bytes();
    let mut buffer: Vec<u8> = vec![0u8; scan as usize];
    let got = reader.read(buffer.as_mut_slice())?;
    let front = vstd::slice::slice_subrange(buffer.as_slice(), 0, got);
    proof {
        assert(front@ =~= scanned_front(bytes));
    }
    if crate::text::str_from_utf8(front).is_none() {
        return Err(Error::invalid_argument("isis: label is not valid UTF-8"));
    }
    let label_len = match find_last_end_marker(front) {
        Some(i) => i + 5,
        None => {
            return Err(Error::invalid_argument("isis: no End marker closing the label"));
        },
    };
    let label = vstd::slice::slice_subrange(front, 0, label_len);
    let image = parse_label(label)?;
    Ok(IsisDocument { image, label_bytes: label_len as u64 })
}

/// The absolute byte offset of the pixel block: the label's length.
pub fn pixel_origin(label_bytes: u64) -> (r: u64)
    ensures
        r == label_bytes,
{
    label_bytes
}

} // verus!
