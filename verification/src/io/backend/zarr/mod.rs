//! Zarr-style single-file container: a JSON array header and fixed-size
//! chunk slots.

pub mod codec;
pub mod document;
pub mod image_sink;
pub mod image_source;

pub use codec::payload_bound;
pub use document::{build_layout, parse_compressor, parse_header, read_document, Compressor, ZarrLayout};
pub use image_sink::ZarrImageSink;
pub use image_source::ZarrImageSource;

use crate::error::{Error, ErrorCode, Result};
use crate::io::backend::tiff::endian::{lemma_le_bytes_len, lemma_pow256_values, lemma_uint_round_trip, uint_bytes, uint_value, write_u64, Endian};
use crate::io::backend_capabilities::BackendCapabilities;
use crate::io::binary_reader::BinaryReader;
use crate::io::binary_writer::{lemma_overwrite_at_concat, overwrite_at, BinaryWriter};
use crate::io::storage_backend::StorageBackend;
use crate::io::storage_model::StorageModel;
use document::{
    built_layout, declared_header_len, document_layout, document_readable, header_model, header_params, header_readable,
    layout_buildable, layout_chunk_fits, HEADER_SIZE, MAX_HEADER_BYTES,
};
use vstd::utf8::decode_utf8;
use vstd::prelude::*;

verus! {

/// The image a model describes: its first child, or the model itself when
/// it has none.
pub open spec fn image_model_of(m: StorageModel) -> StorageModel {
    if m.child_nodes().len() > 0 {
        m.child_nodes()[0]
    } else {
        m
    }
}

/// The document prefix for the JSON header `header`: its length as eight
/// little-endian bytes, then the header.
pub open spec fn document_prefix(header: Seq<u8>) -> Seq<u8> {
    uint_bytes(header.len(), 8, Endian::Little) + header
}

/// A document starts with the prefix of a readable header, whatever
/// follows: reading it back finds that header and the image fields it
/// declares.
pub proof fn lemma_prefix_reads_back(header: Seq<u8>, tail: Seq<u8>)
    requires
        0 < header.len() <= MAX_HEADER_BYTES,
        header_readable(header),
    ensures
        document_readable(document_prefix(header) + tail),
        forall|l: ZarrLayout|
            document_layout(document_prefix(header) + tail, l) ==> l.header@ == header && l.image.field_map()
                == header_model(header_params(decode_utf8(header))->0),
{
    let doc = document_prefix(header) + tail;
    lemma_pow256_values();
    lemma_uint_round_trip(header.len(), 8, Endian::Little);
    let len_bytes = uint_bytes(header.len(), 8, Endian::Little);
    assert(doc.subrange(0, 8) =~= len_bytes);
    assert(uint_value(doc, 8, Endian::Little) == uint_value(len_bytes, 8, Endian::Little)) by {
        assert(doc.subrange(0, 8) =~= len_bytes.subrange(0, 8));
    }
    assert(declared_header_len(doc) == header.len());
    assert(doc.subrange(8, 8 + header.len() as int) =~= header);
}

/// A model written by [`ZarrBackend`] reads back as the image it
/// describes: when the samples field fits in `u32` and the header is no
/// longer than [`MAX_HEADER_BYTES`], the document holding the written
/// prefix is readable and its image carries the model's size, tile size,
/// samples (1 when the field reads `"1"`), pixel type and compressor.
pub proof fn lemma_serialize_then_deserialize(m: StorageModel, l: ZarrLayout, tail: Seq<u8>)
    requires
        built_layout(m.field_map(), l),
        crate::text::parse_decimal(crate::text::utf8(m.field_map()["samplesPerPixel"@]), u64::MAX as nat)->0 <= u32::MAX,
        0 < l.header@.len() <= MAX_HEADER_BYTES,
    ensures
        document_readable(document_prefix(l.header@) + tail),
        forall|back: ZarrLayout|
            document_layout(document_prefix(l.header@) + tail, back) ==> back.image.field_map() == header_model(
                header_params(decode_utf8(l.header@))->0,
            ),
        header_params(decode_utf8(l.header@)) == Some(document::layout_params(m.field_map())),
{
    lemma_prefix_reads_back(l.header@, tail);
}

/// The Zarr-style single-file storage backend: a length-prefixed JSON
/// array header, then one fixed-size slot per chunk. It supports tiling
/// and forward-only streams, not random access or cloud streaming.
pub struct ZarrBackend;

impl ZarrBackend {
    /// The image `model` describes ([`image_model_of`]).
    fn image_model(model: &StorageModel) -> (m: &StorageModel)
        ensures
            *m == image_model_of(*model),
    {
        let children = model.children();
        if children.len() > 0 {
            &children[0]
        } else {
            model
        }
    }

    /// Writes the document prefix of `layout`'s header at the cursor and
    /// returns where the pixel region starts. A header over
    /// [`MAX_HEADER_BYTES`] fails with [`ErrorCode::InvalidArgument`]
    /// without writing.
    fn write_header<W: BinaryWriter>(writer: &mut W, layout: &ZarrLayout) -> (r: Result<u64>)
        ensures
            final(writer).reliable() == old(writer).reliable(),
            layout.header@.len() > MAX_HEADER_BYTES ==> (r matches Err(e) && e.kind() == ErrorCode::InvalidArgument
                && *final(writer) == *old(writer)),
            old(writer).reliable() && layout.header@.len() <= MAX_HEADER_BYTES && old(writer).pos() + 8
                + layout.header@.len() <= usize::MAX ==> r is Ok,
            r matches Ok(v) ==> {
                &&& layout.header@.len() <= MAX_HEADER_BYTES
                &&& v == HEADER_SIZE + layout.header@.len()
                &&& final(writer).bytes() == overwrite_at(old(writer).bytes(), old(writer).pos(), document_prefix(layout.header@))
                &&& final(writer).pos() == old(writer).pos() + v
            },
    {
        if layout.header.len() as u64 > MAX_HEADER_BYTES {
            return Err(Error::invalid_argument("zarr: header too large to encode"));
        }
        let header_len = layout.header.len() as u64;
        let mut seek_header: Vec<u8> = vec![0u8; 8];
        write_u64(seek_header.as_mut_slice(), header_len, Endian::Little);
        proof {
            lemma_le_bytes_len(header_len as nat, 8);
        }
        assert(seek_header@ =~= uint_bytes(header_len as nat, 8, Endian::Little));
        let ghost b0 = writer.bytes();
        let ghost p0 = writer.pos();
        let n = writer.write(seek_header.as_slice())?;
        if n != seek_header.len() {
            return Err(Error::invalid_argument("zarr: short seek header write"));
        }
        assert(seek_header@.subrange(0, n as int) =~= seek_header@);
        let n = writer.write(layout.header.as_slice())?;
        if n != layout.header.len() {
            return Err(Error::invalid_argument("zarr: short header write"));
        }
        assert(layout.header@.subrange(0, n as int) =~= layout.header@);
        proof {
            lemma_overwrite_at_concat(b0, p0, seek_header@, layout.header@);
        }
        Ok(HEADER_SIZE + header_len)
    }

    /// A sink over `writer` for the image `model` describes: the document
    /// prefix is written at the cursor, which then moves to the pixel
    /// region. A model without what [`layout_buildable`] asks, or whose
    /// chunks do not fit ([`layout_chunk_fits`]), fails with
    /// [`ErrorCode::InvalidArgument`]; otherwise a reliable writer with room
    /// for the header at its cursor gives the sink.
    pub fn open_image_sink<W: BinaryWriter>(&self, writer: W, model: &StorageModel) -> (r: Result<ZarrImageSink<W>>)
        ensures
            !(layout_buildable(image_model_of(*model).field_map()) && layout_chunk_fits(
                image_model_of(*model).field_map(),
            )) ==> (r matches Err(e) && e.kind() == ErrorCode::InvalidArgument),
            ({
                let f = image_model_of(*model).field_map();
                &&& layout_buildable(f)
                &&& layout_chunk_fits(f)
                &&& writer.reliable()
                &&& forall|l: ZarrLayout|
                    #[trigger] built_layout(f, l) ==> l.header@.len() <= MAX_HEADER_BYTES && writer.pos() + 8
                        + l.header@.len() <= usize::MAX
            }) ==> r is Ok,
            r matches Ok(s) ==> exists|l: ZarrLayout|
                #![trigger built_layout(image_model_of(*model).field_map(), l)]
                {
                    &&& built_layout(image_model_of(*model).field_map(), l)
                    &&& s.sink_layout() == l
                    &&& s.region_start() == HEADER_SIZE + l.header@.len()
                    &&& s.sink_writer().bytes() == overwrite_at(writer.bytes(), writer.pos(), document_prefix(l.header@))
                    &&& s.sink_writer().pos() == HEADER_SIZE + l.header@.len()
                    &&& s.sink_writer().reliable() == writer.reliable()
                },
    {
        let img = Self::image_model(model);
        let layout = build_layout(img)?;
        let mut writer = writer;
        let ghost w0 = writer;
        let pixel_region = Self::write_header(&mut writer, &layout)?;
        proof {
            lemma_le_bytes_len(layout.header@.len(), 8);
            assert(writer.bytes().len() >= w0.pos() + document_prefix(layout.header@).len());
        }
        writer.seek(pixel_region)?;
        let ghost l = layout;
        let sink = ZarrImageSink::new(writer, layout, pixel_region);
        assert(built_layout(image_model_of(*model).field_map(), l));
        Ok(sink)
    }

    /// A source over `reader` for the image of the document it holds; a
    /// document that is not [`document_readable`] fails.
    pub fn open_image_source<R: BinaryReader>(&self, reader: R) -> (r: Result<ZarrImageSource<R>>)
        ensures
            reader.reliable() ==> (r is Ok <==> document_readable(reader.bytes())),
            r matches Ok(s) ==> {
                &&& document_layout(reader.bytes(), s.source_layout())
                &&& s.region_start() == HEADER_SIZE + s.source_layout().header@.len()
                &&& s.source_reader().bytes() == reader.bytes()
                &&& s.source_reader().reliable() == reader.reliable()
            },
    {
        let mut reader = reader;
        let doc = read_document(&mut reader)?;
        let pixel_region = HEADER_SIZE + doc.header.len() as u64;
        Ok(ZarrImageSource::new(reader, doc, pixel_region))
    }
}

impl StorageBackend for ZarrBackend {
    /// `"zarr"`.
    fn name(&self) -> (n: &'static str)
        ensures
            n@ == "zarr"@,
    {
        "zarr"
    }

    /// Tiling and forward-only streams; no random access or cloud streaming.
    fn capabilities(&self) -> (c: BackendCapabilities)
        ensures
            c == (BackendCapabilities {
                supports_tiling: true,
                supports_streaming: true,
                supports_random_access: false,
                supports_cloud_streaming: false,
            }),
    {
        BackendCapabilities {
            supports_tiling: true,
            supports_streaming: true,
            supports_random_access: false,
            supports_cloud_streaming: false,
        }
    }

    /// Reads the document's header into a model with one child holding the
    /// image's fields; a document that is not [`document_readable`] fails.
    fn deserialize_model<R: BinaryReader>(&self, reader: &mut R) -> (r: Result<StorageModel>)
        ensures
            final(reader).bytes() == old(reader).bytes(),
            final(reader).reliable() == old(reader).reliable(),
            old(reader).reliable() ==> (r is Ok <==> document_readable(old(reader).bytes())),
            r matches Ok(root) ==> {
                &&& root.field_map() == Map::<Seq<char>, Seq<char>>::empty()
                &&& root.child_nodes().len() == 1
                &&& exists|l: ZarrLayout|
                    #![trigger document_layout(old(reader).bytes(), l)]
                    document_layout(old(reader).bytes(), l) && root.child_nodes()[0] == l.image
            },
    {
        let doc = read_document(reader)?;
        let ghost l = doc;
        let mut root = StorageModel::new();
        root.add_child(doc.image);
        assert(root.child_nodes()[0] == l.image);
        Ok(root)
    }

    /// Writes the document prefix of the image `model` describes at the
    /// cursor; chunks are written later through a sink. A model without
    /// what [`layout_buildable`] asks fails with
    /// [`ErrorCode::InvalidArgument`] and writes nothing.
    fn serialize_model<W: BinaryWriter>(&self, model: &StorageModel, writer: &mut W) -> (r: Result<()>)
        ensures
            final(writer).reliable() == old(writer).reliable(),
            !layout_buildable(image_model_of(*model).field_map()) ==> (r matches Err(e) && e.kind() == ErrorCode::InvalidArgument
                && *final(writer) == *old(writer)),
            r is Ok ==> exists|l: ZarrLayout|
                #![trigger built_layout(image_model_of(*model).field_map(), l)]
                built_layout(image_model_of(*model).field_map(), l) && final(writer).bytes() == overwrite_at(
                    old(writer).bytes(),
                    old(writer).pos(),
                    document_prefix(l.header@),
                ),
    {
        let img = Self::image_model(model);
        let layout = build_layout(img)?;
        Self::write_header(writer, &layout)?;
        assert(built_layout(image_model_of(*model).field_map(), layout));
        Ok(())
    }
}

} // verus!
