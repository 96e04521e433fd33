//! A PDS4 document: an 8-byte little-endian label length, the XML label,
//! then the pixel region.
use crate::error::{Error, ErrorCode, Result};
use crate::io::backend::tiff::endian::{read_u64, uint_value, Endian};
use crate::io::binary_reader::BinaryReader;
use crate::io::storage_model::StorageModel;
use vstd::prelude::*;

use super::label::{label_fields, parse_label, HEADER_SIZE};
use vstd::utf8::{decode_utf8, valid_utf8};

verus! {

/// The longest label accepted.
pub const MAX_LABEL_BYTES: u64 = 16777216;

/// A document's image fields and the byte length of its label.
#[derive(Debug)]
pub struct Pds4Document {
    /// The fields of the label's array element.
    pub image: StorageModel,
    /// Bytes of the XML label.
    pub label_bytes: u64,
}

/// The label length a document `b` declares in its first eight bytes.
pub open spec fn declared_label_len(b: Seq<u8>) -> nat {
    uint_value(b, 8, Endian::Little)
}

/// Whether a document's front holds a plausible label: the length prefix,
/// a length in `1..=MAX_LABEL_BYTES`, and that many bytes behind it.
pub open spec fn label_present(b: Seq<u8>) -> bool {
    &&& b.len() >= 8
    &&& 0 < declared_label_len(b) <= MAX_LABEL_BYTES
    &&& b.len() >= 8 + declared_label_len(b)
}

/// The label bytes of a document `b` that holds one.
pub open spec fn document_label(b: Seq<u8>) -> Seq<u8> {
    b.subrange(8, 8 + declared_label_len(b) as int)
}

/// The image fields the label of a document `b` holds ([`label_fields`]),
/// or `None` when the label is not UTF-8 or does not parse.
pub open spec fn document_fields(b: Seq<u8>) -> Option<Map<Seq<char>, Seq<char>>> {
    if valid_utf8(document_label(b)) {
        label_fields(decode_utf8(document_label(b)))
    } else {
        None
    }
}

/// Reads the length prefix and the label at the start of the document and
/// parses the label ([`parse_label`]). On a reliable reader, a missing
/// prefix, an implausible length or a truncated label fail with
/// [`ErrorCode::InvalidArgument`], as does a label that does not parse;
/// a present label that parses gives its fields ([`document_fields`]).
pub fn read_document<R: BinaryReader>(reader: &mut R) -> (r: Result<Pds4Document>)
    ensures
        final(reader).bytes() == old(reader).bytes(),
        final(reader).reliable() == old(reader).reliable(),
        old(reader).reliable() && !label_present(old(reader).bytes()) ==> (r matches Err(e) && e.kind()
            == ErrorCode::InvalidArgument),
        r matches Ok(d) ==> label_present(old(reader).bytes()) && d.label_bytes == declared_label_len(old(reader).bytes()),
        old(reader).reliable() ==> (r matches Err(e) ==> e.kind() == ErrorCode::InvalidArgument),
        old(reader).reliable() && label_present(old(reader).bytes()) ==> (r is Ok <==> document_fields(
            old(reader).bytes(),
        ) is Some),
        r matches Ok(d) ==> d.image.field_map() == document_fields(old(reader).bytes())->0,
{
    reader.seek(0)?;
    let ghost b = reader.bytes();
    let mut header: Vec<u8> = vec![0u8; 8];
    let read_header = reader.read(header.as_mut_slice())?;
    if read_header != 8 {
        return Err(Error::invalid_argument("pds4: truncated seek header"));
    }
    assert(header@ =~= b.subrange(0, 8));
    let label_bytes = read_u64(header.as_slice(), Endian::Little);
    proof {
        assert(uint_value(header@, 8, Endian::Little) == uint_value(b, 8, Endian::Little)) by {
            assert(header@.subrange(0, 8) =~= b.subrange(0, 8));
        }
    }
    if label_bytes == 0 || label_bytes > MAX_LABEL_BYTES {
        return Err(Error::invalid_argument("pds4: implausible label byte length"));
    }
    let mut label: Vec<u8> = vec![0u8; label_bytes as usize];
    let read_label = reader.read(label.as_mut_slice())?;
    if read_label != label.len() {
        return Err(Error::invalid_argument("pds4: truncated XML label"));
    }
    assert(label@ =~= document_label(b));
    let image = parse_label(label.as_slice())?;
    Ok(Pds4Document { image, label_bytes })
}

/// Where the pixel region starts behind a label of `label_bytes` bytes.
pub fn pixel_origin(label_bytes: u64) -> (r: u64)
    requires
        label_bytes <= u64::MAX - HEADER_SIZE,
    ensures
        r == HEADER_SIZE + label_bytes,
{
    HEADER_SIZE + label_bytes
}

} // verus!
