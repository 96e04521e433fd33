//! PDS4 single-file container: a length-prefixed XML label, then the
//! image's tiles at fixed linear offsets.

pub mod document;
pub mod label;

pub use document::{pixel_origin, read_document, Pds4Document};
pub use label::{parse_label, write_label};

use crate::error::{Error, ErrorCode, Result};
use crate::io::backend::memory_image_sink::MemoryImageSink;
use crate::io::backend::memory_image_source::MemoryImageSource;
use crate::io::backend::memory_layout::{image_info_from_model, memory_image_ok};
use crate::io::backend::tiff::endian::{lemma_le_bytes_len, uint_bytes, write_u64, Endian};
use crate::io::backend::zarr::image_model_of;
use crate::io::backend_capabilities::BackendCapabilities;
use crate::io::binary_reader::BinaryReader;
use crate::io::binary_writer::{lemma_overwrite_at_concat, overwrite_at, BinaryWriter};
use crate::io::storage_backend::StorageBackend;
use crate::io::storage_model::StorageModel;
use document::{declared_label_len, document_fields, label_present, MAX_LABEL_BYTES};
use label::{label_bytes, HEADER_SIZE};
use vstd::prelude::*;

verus! {

/// The PDS4 storage backend: a length-prefixed XML label, then the
/// image's tiles at fixed linear offsets. It supports tiling and random
/// access, not forward-only streams or cloud streaming.
pub struct Pds4Backend;

impl Pds4Backend {
    /// The image `model` describes ([`image_model_of`]).
    fn image_model(model: &StorageModel) -> (m: &StorageModel)
        ensures
            *m == image_model_of(*model),
    {
        let children = model.children();
        if children.len() > 0 {
            &children[0]
        } else {
            model
        }
    }

    /// Writes all of `bytes` at the cursor, in as many writes as the
    /// transport needs; a write that accepts nothing fails with
    /// [`ErrorCode::InvalidArgument`].
    fn write_all<W: BinaryWriter>(writer: &mut W, bytes: &[u8]) -> (r: Result<()>)
        ensures
            final(writer).reliable() == old(writer).reliable(),
            old(writer).reliable() && old(writer).pos() + bytes@.len() <= usize::MAX ==> r is Ok,
            r is Ok && bytes@.len() > 0 ==> final(writer).bytes() == overwrite_at(old(writer).bytes(), old(writer).pos(), bytes@),
            r is Ok ==> final(writer).pos() == old(writer).pos() + bytes@.len(),
            bytes@.len() == 0 ==> r is Ok && *final(writer) == *old(writer),
    {
        if bytes.len() == 0 {
            return Ok(());
        }
        let ghost b0 = writer.bytes();
        let ghost p0 = writer.pos();
        let mut written: usize = 0;
        while written < bytes.len()
            invariant
                written <= bytes@.len(),
                writer.reliable() == old(writer).reliable(),
                b0 == old(writer).bytes(),
                p0 == old(writer).pos(),
                written > 0 ==> writer.bytes() == overwrite_at(b0, p0, bytes@.subrange(0, written as int)),
                written == 0 ==> writer.bytes() == b0,
                writer.pos() == p0 + written,
            decreases bytes@.len() - written,
        {
            let rest = vstd::slice::slice_subrange(bytes, written, bytes.len());
            let ghost before = writer.bytes();
            let n = writer.write(rest)?;
            if n == 0 {
                return Err(Error::invalid_argument("pds4: short label write"));
            }
            proof {
                let done = bytes@.subrange(0, written as int);
                let more = rest@.subrange(0, n as int);
                assert(done + more =~= bytes@.subrange(0, written + n));
                if written > 0 {
                    lemma_overwrite_at_concat(b0, p0, done, more);
                } else {
                    assert(more =~= bytes@.subrange(0, written + n));
                }
            }
            written = written + n;
        }
        if bytes.len() > 0 {
            assert(bytes@.subrange(0, bytes@.len() as int) =~= bytes@);
        }
        Ok(())
    }

    /// A source over `reader` for the image of the document it holds, its
    /// tiles behind the label. A document without a plausible label fails
    /// ([`ErrorCode::InvalidArgument`] on a reliable reader), as does a
    /// label that does not parse or does not describe an in-memory image.
    pub fn open_image_source<R: BinaryReader>(&self, reader: R) -> (r: Result<MemoryImageSource<R>>)
        ensures
            reader.reliable() && !label_present(reader.bytes()) ==> (r matches Err(e) && e.kind()
                == ErrorCode::InvalidArgument),
            reader.reliable() && label_present(reader.bytes()) ==> (r is Ok <==> (document_fields(reader.bytes()) is Some
                && memory_image_ok(document_fields(reader.bytes())->0))),
            r matches Ok(s) ==> {
                &&& label_present(reader.bytes())
                &&& s.pixel_start() == HEADER_SIZE + declared_label_len(reader.bytes())
                &&& s.source_reader().bytes() == reader.bytes()
                &&& s.source_reader().reliable() == reader.reliable()
            },
    {
        let mut reader = reader;
        let doc = read_document(&mut reader)?;
        let info = image_info_from_model(&doc.image)?;
        let pixel_start = pixel_origin(doc.label_bytes);
        Ok(MemoryImageSource::new(reader, info, pixel_start))
    }

    /// A sink over `writer` for the image `model` describes, its cursor
    /// moved to where the tiles start behind the label. A model that does
    /// not describe an in-memory image fails with
    /// [`ErrorCode::InvalidArgument`]; otherwise a reliable writer that
    /// already reaches the tile start gives the sink.
    pub fn open_image_sink<W: BinaryWriter>(&self, writer: W, model: &StorageModel) -> (r: Result<MemoryImageSink<W>>)
        ensures
            !memory_image_ok(image_model_of(*model).field_map()) ==> (r matches Err(e) && e.kind()
                == ErrorCode::InvalidArgument),
            memory_image_ok(image_model_of(*model).field_map()) && writer.reliable() && HEADER_SIZE
                + label_bytes(image_model_of(*model).entries()).len() <= writer.bytes().len()
                && HEADER_SIZE + label_bytes(image_model_of(*model).entries()).len() <= u64::MAX ==> r is Ok,
            r matches Ok(s) ==> {
                &&& memory_image_ok(image_model_of(*model).field_map())
                &&& s.pixel_start() == HEADER_SIZE + label_bytes(image_model_of(*model).entries()).len()
                &&& s.sink_writer().bytes() == writer.bytes()
                &&& s.sink_writer().pos() == s.pixel_start()
                &&& s.sink_writer().reliable() == writer.reliable()
            },
    {
        let img = Self::image_model(model);
        let info = image_info_from_model(img)?;
        let label = write_label(img)?;
        if label.len() as u64 > u64::MAX - HEADER_SIZE {
            return Err(Error::invalid_argument("pds4: label too large to encode"));
        }
        let pixel_start = pixel_origin(label.len() as u64);
        let mut writer = writer;
        writer.seek(pixel_start)?;
        Ok(MemoryImageSink::new(writer, info, pixel_start))
    }
}

impl StorageBackend for Pds4Backend {
    /// `"pds4"`.
    fn name(&self) -> (n: &'static str)
        ensures
            n@ == "pds4"@,
    {
        "pds4"
    }

    /// Tiling and random access; no forward-only streams or cloud
    /// streaming.
    fn capabilities(&self) -> (c: BackendCapabilities)
        ensures
            c == (BackendCapabilities {
                supports_tiling: true,
                supports_streaming: false,
                supports_random_access: true,
                supports_cloud_streaming: false,
            }),
    {
        BackendCapabilities {
            supports_tiling: true,
            supports_streaming: false,
            supports_random_access: true,
            supports_cloud_streaming: false,
        }
    }

    /// Reads the document's label into a model with one child holding the
    /// label's fields ([`document_fields`]); a document without a plausible
    /// label fails
    /// ([`ErrorCode::InvalidArgument`] on a reliable reader), as does a
    /// label that does not parse.
    fn deserialize_model<R: BinaryReader>(&self, reader: &mut R) -> (r: Result<StorageModel>)
        ensures
            final(reader).bytes() == old(reader).bytes(),
            final(reader).reliable() == old(reader).reliable(),
            old(reader).reliable() && !label_present(old(reader).bytes()) ==> (r matches Err(e) && e.kind()
                == ErrorCode::InvalidArgument),
            old(reader).reliable() && label_present(old(reader).bytes()) ==> (r is Ok <==> document_fields(
                old(reader).bytes(),
            ) is Some),
            r matches Ok(root) ==> {
                &&& label_present(old(reader).bytes())
                &&& root.field_map() == Map::<Seq<char>, Seq<char>>::empty()
                &&& root.child_nodes().len() == 1
                &&& root.child_nodes()[0].field_map() == document_fields(old(reader).bytes())->0
            },
    {
        let doc = read_document(reader)?;
        let mut root = StorageModel::new();
        root.add_child(doc.image);
        Ok(root)
    }

    /// Writes the label of the image `model` describes behind its length
    /// prefix, at the cursor; tiles are written later through a sink. A
    /// label over [`MAX_LABEL_BYTES`] fails with
    /// [`ErrorCode::InvalidArgument`]; any other label is written whole on
    /// a reliable writer whose cursor leaves room for it.
    fn serialize_model<W: BinaryWriter>(&self, model: &StorageModel, writer: &mut W) -> (r: Result<()>)
        ensures
            final(writer).reliable() == old(writer).reliable(),
            r is Ok ==> {
                let label = label_bytes(image_model_of(*model).entries());
                &&& label.len() <= MAX_LABEL_BYTES
                &&& final(writer).bytes() == overwrite_at(
                    old(writer).bytes(),
                    old(writer).pos(),
                    uint_bytes(label.len(), 8, Endian::Little) + label,
                )
                &&& final(writer).pos() == old(writer).pos() + 8 + label.len()
            },
            label_bytes(image_model_of(*model).entries()).len() > MAX_LABEL_BYTES ==> (r matches Err(e)
                && e.kind() == ErrorCode::InvalidArgument),
            ({
                let label = label_bytes(image_model_of(*model).entries());
                old(writer).reliable() && label.len() <= MAX_LABEL_BYTES && old(writer).pos() + 8 + label.len()
                    <= usize::MAX ==> r is Ok
            }),
    {
        let img = Self::image_model(model);
        let label = write_label(img)?;
        if label.len() as u64 > MAX_LABEL_BYTES {
            return Err(Error::invalid_argument("pds4: label too large to encode"));
        }
        let mut header: Vec<u8> = vec![0u8; 8];
        write_u64(header.as_mut_slice(), label.len() as u64, Endian::Little);
        proof {
            lemma_le_bytes_len(label@.len(), 8);
        }
        assert(header@ =~= uint_bytes(label@.len(), 8, Endian::Little));
        let ghost b0 = writer.bytes();
        let ghost p0 = writer.pos();
        Self::write_all(writer, header.as_slice())?;
        Self::write_all(writer, label.as_slice())?;
        proof {
            lemma_overwrite_at_concat(b0, p0, header@, label@);
        }
        Ok(())
    }
}

} // verus!
