//! Writes an image's tiles into a TIFF file laid out by a write plan: raw
//! tiles at their planned offsets; a compressed strip encoded and its byte
//! count patched into the IFD; compressed tiles packed back to back in
//! row-major order, each tile's offset and byte count patched into the IFD.
use super::compression::predictor::geometry_ok;
use super::directory::{TiffCompression, TiffDirectory, TiffPredictor};
use super::endian::{lemma_le_bytes_len, uint_bytes, write_u32, Endian};
use super::pixel_format::bytes_per_sample;
use super::tile_codec::{compressed_as, encode_tile_bytes, predicted, TileEncodeParams};
use crate::error::{Error, ErrorCode, Result};
use crate::io::binary_writer::{overwrite_at, BinaryWriter};
use crate::pixel_type::sample_bytes;
use crate::tile::{level_dim, tiles_across, Tile, TileLayout};
use vstd::prelude::*;

verus! {

/// The encoding parameters of a directory's tiles.
pub open spec fn encode_params(d: TiffDirectory) -> TileEncodeParams {
    TileEncodeParams {
        width: d.layout.tile_size.width,
        height: d.layout.tile_size.height,
        samples_per_pixel: d.samples_per_pixel,
        bytes_per_sample: sample_bytes(d.pixel_type) as u8,
        predictor_horizontal: d.predictor == TiffPredictor::HorizontalDifferencing,
        big_endian: d.endian == Endian::Big,
        compression: d.compression,
        jpeg_quality: d.jpeg_quality,
    }
}

/// Whether `out` is what the directory's predictor and compression make of
/// the raw tile bytes `raw`.
pub open spec fn encodes_to(p: TileEncodeParams, raw: Seq<u8>, out: Seq<u8>) -> bool {
    exists|payload: Seq<u8>|
        predicted(
            raw,
            p.width,
            p.samples_per_pixel,
            p.bytes_per_sample,
            p.big_endian,
            p.predictor_horizontal,
            payload,
        ) && #[trigger] compressed_as(p, payload, out)
}

/// The row-major position of tile (`column`, `row`) at `level` of a layout.
pub open spec fn linear_tile(l: TileLayout, column: u32, row: u32, level: u32) -> int {
    row * tiles_across(level_dim(l.image_width as nat, level as nat), l.tile_size.width as nat) + column
}

/// Whether an image is tiled and compressed: its tiles are then packed back
/// to back and patched into the IFD.
pub open spec fn packs_tiles(d: TiffDirectory) -> bool {
    d.compression != TiffCompression::NoCompression && d.tile_offsets_value_addresses.len() > 0
}

/// The little-endian bytes of a 32-bit value.
pub open spec fn le32(v: nat) -> Seq<u8> {
    uint_bytes(v, 4, Endian::Little)
}

/// Whether a packed tile of `len` bytes written at `off`, then its offset
/// at `offset_slot` and its byte count at `count_slot` (four bytes each),
/// stay within reach of a writer that holds `b`: each write starts at or
/// before the end of what is written by then and ends by `usize::MAX`.
pub open spec fn packed_writes_fit(b: Seq<u8>, off: nat, len: nat, offset_slot: nat, count_slot: nat) -> bool {
    let l1: nat = if off + len > b.len() {
        off + len
    } else {
        b.len()
    };
    let l2: nat = if offset_slot + 4 > l1 {
        offset_slot + 4
    } else {
        l1
    };
    &&& off <= b.len()
    &&& off + len <= usize::MAX
    &&& offset_slot <= l1
    &&& offset_slot + 4 <= usize::MAX
    &&& count_slot <= l2
    &&& count_slot + 4 <= usize::MAX
}

/// Whether a strip of `len` encoded bytes written at `off`, after its
/// 4-byte byte count at `patch`, stays within reach of a writer that holds
/// `b` (see [`packed_writes_fit`]).
pub open spec fn strip_writes_fit(b: Seq<u8>, patch: nat, off: nat, len: nat) -> bool {
    let l1: nat = if patch + 4 > b.len() {
        patch + 4
    } else {
        b.len()
    };
    &&& patch <= b.len()
    &&& patch + 4 <= usize::MAX
    &&& off <= l1
    &&& off + len <= usize::MAX
}

/// The codecs whose output is fixed by their input and that accept every
/// tile of at most `u32::MAX` bytes.
pub open spec fn total_codec(c: TiffCompression) -> bool {
    c == TiffCompression::Lzw || c == TiffCompression::PackBits || c == TiffCompression::Deflate
}

/// Writes the tiles of one image through a writer.
pub struct TiffImageSink<W> {
    writer: W,
    directory: TiffDirectory,
    compressed_tiled: bool,
    next_write_offset: u64,
    next_linear_index: usize,
}

impl<W: BinaryWriter> TiffImageSink<W> {
    /// The writer.
    pub closed spec fn sink_writer(&self) -> W {
        self.writer
    }

    /// The directory being written.
    pub closed spec fn sink_directory(&self) -> TiffDirectory {
        self.directory
    }

    /// Where the next packed tile goes.
    pub closed spec fn next_offset(&self) -> u64 {
        self.next_write_offset
    }

    /// The row-major index the next packed tile must have.
    pub closed spec fn next_index(&self) -> nat {
        self.next_linear_index as nat
    }

    /// The sink's bookkeeping agrees with its directory.
    pub closed spec fn wf(&self) -> bool {
        self.compressed_tiled == packs_tiles(self.directory)
    }

    /// A sink over `writer` for `directory`; packed tiles start at the
    /// first tile's planned offset.
    pub fn new(writer: W, directory: TiffDirectory) -> (s: Self)
        ensures
            s.wf(),
            s.sink_writer() == writer,
            s.sink_directory() == directory,
            s.next_index() == 0,
            s.next_offset() == if directory.tile_byte_ranges@.len() > 0 {
                directory.tile_byte_ranges@[0].offset
            } else {
                0
            },
    {
        let compressed_tiled = directory.compression != TiffCompression::NoCompression
            && directory.tile_offsets_value_addresses.len() > 0;
        let next_write_offset = if directory.tile_byte_ranges.len() > 0 {
            directory.tile_byte_ranges[0].offset
        } else {
            0
        };
        TiffImageSink { writer, directory, compressed_tiled, next_write_offset, next_linear_index: 0 }
    }

    /// The image's tile grid.
    pub fn layout(&self) -> (l: TileLayout)
        ensures
            l == self.sink_directory().layout,
    {
        self.directory.layout
    }

    /// The writer, handed back.
    pub fn into_writer(self) -> (w: W)
        ensures
            w == self.sink_writer(),
    {
        self.writer
    }

    fn encode_params(&self) -> (p: TileEncodeParams)
        ensures
            p == encode_params(self.directory),
    {
        TileEncodeParams {
            width: self.directory.layout.tile_size.width,
            height: self.directory.layout.tile_size.height,
            samples_per_pixel: self.directory.samples_per_pixel,
            bytes_per_sample: bytes_per_sample(self.directory.pixel_type),
            predictor_horizontal: self.directory.predictor == TiffPredictor::HorizontalDifferencing,
            big_endian: self.directory.endian == Endian::Big,
            compression: self.directory.compression,
            jpeg_quality: self.directory.jpeg_quality,
        }
    }

    /// Seeks to `offset` and writes all of `src` there.
    fn write_at(&mut self, offset: u64, src: &[u8]) -> (r: Result<()>)
        ensures
            final(self).directory == old(self).directory,
            final(self).compressed_tiled == old(self).compressed_tiled,
            final(self).next_write_offset == old(self).next_write_offset,
            final(self).next_linear_index == old(self).next_linear_index,
            final(self).writer.reliable() == old(self).writer.reliable(),
            r is Ok ==> final(self).writer.bytes() == overwrite_at(old(self).writer.bytes(), offset as nat, src@),
            old(self).writer.reliable() && offset <= old(self).writer.bytes().len() && offset + src@.len()
                <= usize::MAX ==> r is Ok,
    {
        self.writer.seek(offset)?;
        let n = self.writer.write(src)?;
        if n != src.len() {
            return Err(Error::invalid_argument("TiffImageSink::writeTile: short write"));
        }
        assert(src@.subrange(0, n as int) =~= src@);
        Ok(())
    }

    /// Writes one tile: its row-major index must lie in the byte-range
    /// table ([`ErrorCode::OutOfRange`] otherwise) and its bytes must have
    /// the planned count ([`ErrorCode::InvalidArgument`] otherwise). A raw
    /// tile lands at its planned offset; a compressed strip is encoded
    /// ([`encodes_to`]), its byte count patched into the IFD, and it lands
    /// at its planned offset; a packed tile must come next in row-major
    /// order, lands at the running offset, and its offset and byte count
    /// are patched into the IFD. A packed tile out of order fails with
    /// [`ErrorCode::InvalidArgument`], leaving the sink as it was. On a
    /// reliable writer, a raw tile whose range the writer reaches is
    /// written, and so is a strip or packed tile of an LZW, PackBits or
    /// Deflate image that encodes and whose writes fit.
    pub fn write_tile(&mut self, tile: &Tile) -> (r: Result<()>)
        requires
            old(self).wf(),
            old(self).sink_directory().layout.tile_size.width > 0,
        ensures
            final(self).wf(),
            final(self).sink_directory() == old(self).sink_directory(),
            final(self).sink_writer().reliable() == old(self).sink_writer().reliable(),
            ({
                let d = old(self).sink_directory();
                let i = tile.tile_index();
                let li = linear_tile(d.layout, i.column, i.row, i.level);
                &&& li >= d.tile_byte_ranges@.len() ==> (r matches Err(e) && e.kind() == ErrorCode::OutOfRange
                    && *final(self) == *old(self))
                &&& li < d.tile_byte_ranges@.len() && tile.bytes().len() != d.tile_byte_ranges@[li].byte_count
                    ==> (r matches Err(e) && e.kind() == ErrorCode::InvalidArgument && *final(self) == *old(self))
                &&& li < d.tile_byte_ranges@.len() && tile.bytes().len() == d.tile_byte_ranges@[li].byte_count
                    && packs_tiles(d) && li != old(self).next_index() ==> (r matches Err(e) && e.kind()
                    == ErrorCode::InvalidArgument && *final(self) == *old(self))
                &&& old(self).sink_writer().reliable() && li < d.tile_byte_ranges@.len() && tile.bytes().len()
                    == d.tile_byte_ranges@[li].byte_count ==> {
                    let range = d.tile_byte_ranges@[li];
                    let b = old(self).sink_writer().bytes();
                    let p = encode_params(d);
                    let encodes = (!p.predictor_horizontal || geometry_ok(
                        tile.bytes().len(),
                        p.width,
                        p.samples_per_pixel,
                        p.bytes_per_sample,
                    )) && tile.bytes().len() <= u32::MAX;
                    &&& !packs_tiles(d) && d.compression == TiffCompression::NoCompression && range.offset <= b.len()
                        && range.offset + range.byte_count <= usize::MAX ==> r is Ok
                    &&& !packs_tiles(d) && total_codec(d.compression) && encodes && (forall|enc: Seq<u8>|
                        #[trigger] encodes_to(p, tile.bytes(), enc) ==> enc.len() <= u32::MAX && strip_writes_fit(
                            b,
                            d.strip_byte_counts_patch_offset as nat,
                            range.offset as nat,
                            enc.len(),
                        )) ==> r is Ok
                    &&& packs_tiles(d) && total_codec(d.compression) && encodes && li == old(self).next_index()
                        && li < d.tile_offsets_value_addresses@.len() && li
                        < d.tile_byte_counts_value_addresses@.len() && (forall|enc: Seq<u8>|
                        #[trigger] encodes_to(p, tile.bytes(), enc) ==> enc.len() <= u32::MAX && packed_writes_fit(
                            b,
                            old(self).next_offset() as nat,
                            enc.len(),
                            d.tile_offsets_value_addresses@[li] as nat,
                            d.tile_byte_counts_value_addresses@[li] as nat,
                        )) ==> r is Ok
                }
                &&& r is Ok ==> {
                    let range = d.tile_byte_ranges@[li];
                    let old_bytes = old(self).sink_writer().bytes();
                    let new_bytes = final(self).sink_writer().bytes();
                    &&& li < d.tile_byte_ranges@.len()
                    &&& tile.bytes().len() == range.byte_count
                    &&& !packs_tiles(d) && d.compression == TiffCompression::NoCompression ==> new_bytes
                        == overwrite_at(old_bytes, range.offset as nat, tile.bytes())
                    &&& !packs_tiles(d) && d.compression != TiffCompression::NoCompression ==> exists|
                        enc: Seq<u8>,
                    |
                        #[trigger] encodes_to(encode_params(d), tile.bytes(), enc) && enc.len() <= u32::MAX
                            && new_bytes == overwrite_at(
                            overwrite_at(old_bytes, d.strip_byte_counts_patch_offset as nat, le32(enc.len())),
                            range.offset as nat,
                            enc,
                        )
                    &&& packs_tiles(d) ==> {
                        &&& li == old(self).next_index()
                        &&& li < d.tile_offsets_value_addresses@.len()
                        &&& final(self).next_index() == old(self).next_index() + 1
                        &&& exists|enc: Seq<u8>|
                            #[trigger] encodes_to(encode_params(d), tile.bytes(), enc) && enc.len() <= u32::MAX
                                && final(self).next_offset() == old(self).next_offset() + enc.len()
                                && new_bytes == overwrite_at(
                                overwrite_at(
                                    overwrite_at(old_bytes, old(self).next_offset() as nat, enc),
                                    d.tile_offsets_value_addresses@[li] as nat,
                                    le32((old(self).next_offset() as u32) as nat),
                                ),
                                d.tile_byte_counts_value_addresses@[li] as nat,
                                le32(enc.len()),
                            )
                    }
                }
            }),
    {
        let index = tile.index();
        let columns = self.directory.layout.columns(index.level);
        assert(index.row as u64 * columns as u64 <= 0xFFFF_FFFE_0000_0001u64) by (nonlinear_arith)
            requires
                index.row <= u32::MAX,
                columns <= u32::MAX,
        ;
        let linear_index = index.row as u64 * columns as u64 + index.column as u64;
        if linear_index >= self.directory.tile_byte_ranges.len() as u64 {
            return Err(Error::out_of_range("TiffImageSink::writeTile: index outside byte range table"));
        }
        let li = linear_index as usize;
        let range = self.directory.tile_byte_ranges[li];
        let data = tile.data();
        if data.len() as u64 != range.byte_count {
            return Err(
                Error::invalid_argument(
                    "TiffImageSink::writeTile: tile data size doesn't match the strip's expected byte count",
                ),
            );
        }
        if self.compressed_tiled {
            return self.write_compressed_tile(li, data);
        }
        if self.directory.compression == TiffCompression::NoCompression {
            return self.write_at(range.offset, data);
        }
        let params = self.encode_params();
        let encoded = encode_tile_bytes(data, params)?;
        assert(encodes_to(encode_params(self.directory), tile.bytes(), encoded@));
        if encoded.len() as u64 > 0xFFFF_FFFFu64 {
            return Err(Error::invalid_argument("TiffImageSink::writeTile: compressed strip exceeds uint32 size"));
        }
        let mut count_bytes: Vec<u8> = vec![0u8; 4];
        write_u32(count_bytes.as_mut_slice(), encoded.len() as u32, Endian::Little);
        proof {
            lemma_le_bytes_len(encoded@.len(), 4);
        }
        assert(count_bytes@ =~= le32(encoded@.len()));
        let ghost before = self.writer.bytes();
        let patch = self.directory.strip_byte_counts_patch_offset;
        self.write_at(patch, count_bytes.as_slice())?;
        self.write_at(range.offset, encoded.as_slice())?;
        assert(encodes_to(encode_params(self.directory), tile.bytes(), encoded@));
        Ok(())
    }

    /// Writes the next packed tile: encodes it, writes it at the running
    /// offset, and patches its offset and byte count into the IFD. A tile
    /// out of row-major order fails with [`ErrorCode::InvalidArgument`];
    /// with LZW or PackBits, a tile that encodes and whose writes fit
    /// ([`packed_writes_fit`]) is written on a reliable writer.
    fn write_compressed_tile(&mut self, linear_index: usize, data: &[u8]) -> (r: Result<()>)
        requires
            old(self).wf(),
            packs_tiles(old(self).directory),
        ensures
            final(self).wf(),
            final(self).directory == old(self).directory,
            final(self).writer.reliable() == old(self).writer.reliable(),
            linear_index != old(self).next_linear_index ==> (r matches Err(e) && e.kind()
                == ErrorCode::InvalidArgument && *final(self) == *old(self)),
            ({
                let d = old(self).directory;
                let p = encode_params(d);
                &&& total_codec(d.compression)
                &&& old(self).writer.reliable()
                &&& linear_index == old(self).next_linear_index
                &&& linear_index < d.tile_offsets_value_addresses@.len()
                &&& linear_index < d.tile_byte_counts_value_addresses@.len()
                &&& data@.len() <= u32::MAX
                &&& p.predictor_horizontal ==> geometry_ok(
                    data@.len(),
                    p.width,
                    p.samples_per_pixel,
                    p.bytes_per_sample,
                )
                &&& forall|enc: Seq<u8>|
                    #[trigger] encodes_to(p, data@, enc) ==> enc.len() <= u32::MAX && packed_writes_fit(
                        old(self).writer.bytes(),
                        old(self).next_write_offset as nat,
                        enc.len(),
                        d.tile_offsets_value_addresses@[linear_index as int] as nat,
                        d.tile_byte_counts_value_addresses@[linear_index as int] as nat,
                    )
            }) ==> r is Ok,
            r is Ok ==> {
                let d = old(self).directory;
                &&& linear_index == old(self).next_linear_index
                &&& linear_index < d.tile_offsets_value_addresses@.len()
                &&& final(self).next_linear_index == old(self).next_linear_index + 1
                &&& exists|enc: Seq<u8>|
                    #[trigger] encodes_to(encode_params(d), data@, enc) && enc.len() <= u32::MAX
                        && final(self).next_write_offset == old(self).next_write_offset + enc.len()
                        && final(self).writer.bytes() == overwrite_at(
                        overwrite_at(
                            overwrite_at(old(self).writer.bytes(), old(self).next_write_offset as nat, enc),
                            d.tile_offsets_value_addresses@[linear_index as int] as nat,
                            le32((old(self).next_write_offset as u32) as nat),
                        ),
                        d.tile_byte_counts_value_addresses@[linear_index as int] as nat,
                        le32(enc.len()),
                    )
            },
    {
        let params = self.encode_params();
        let encoded = encode_tile_bytes(data, params)?;
        assert(encodes_to(encode_params(self.directory), data@, encoded@));
        self.write_pre_encoded_compressed_tile(linear_index, encoded.as_slice())?;
        Ok(())
    }

    /// Writes an already encoded packed tile at the running offset and
    /// patches its offset and byte count into the IFD; tiles must come in
    /// row-major order. A tile out of order, or over `u32::MAX` bytes,
    /// fails with [`ErrorCode::InvalidArgument`], and an index past the
    /// offset or byte-count table with [`ErrorCode::OutOfRange`], all
    /// leaving the sink as it was; otherwise a reliable writer takes the
    /// tile when the writes fit ([`packed_writes_fit`]).
    fn write_pre_encoded_compressed_tile(&mut self, linear_index: usize, encoded: &[u8]) -> (r: Result<()>)
        requires
            old(self).wf(),
        ensures
            final(self).wf(),
            final(self).directory == old(self).directory,
            final(self).writer.reliable() == old(self).writer.reliable(),
            ({
                let d = old(self).directory;
                let in_order = linear_index == old(self).next_linear_index;
                let in_tables = linear_index < d.tile_offsets_value_addresses@.len() && linear_index
                    < d.tile_byte_counts_value_addresses@.len();
                &&& !in_order ==> (r matches Err(e) && e.kind() == ErrorCode::InvalidArgument && *final(self)
                    == *old(self))
                &&& in_order && encoded@.len() > u32::MAX ==> (r matches Err(e) && e.kind()
                    == ErrorCode::InvalidArgument && *final(self) == *old(self))
                &&& in_order && encoded@.len() <= u32::MAX && !in_tables ==> (r matches Err(e) && e.kind()
                    == ErrorCode::OutOfRange && *final(self) == *old(self))
                &&& old(self).writer.reliable() && in_order && encoded@.len() <= u32::MAX && in_tables
                    && packed_writes_fit(
                    old(self).writer.bytes(),
                    old(self).next_write_offset as nat,
                    encoded@.len(),
                    d.tile_offsets_value_addresses@[linear_index as int] as nat,
                    d.tile_byte_counts_value_addresses@[linear_index as int] as nat,
                ) ==> r is Ok
            }),
            r is Ok ==> {
                let d = old(self).directory;
                &&& linear_index == old(self).next_linear_index
                &&& linear_index < d.tile_offsets_value_addresses@.len()
                &&& encoded@.len() <= u32::MAX
                &&& final(self).next_linear_index == old(self).next_linear_index + 1
                &&& final(self).next_write_offset == old(self).next_write_offset + encoded@.len()
                &&& final(self).writer.bytes() == overwrite_at(
                    overwrite_at(
                        overwrite_at(old(self).writer.bytes(), old(self).next_write_offset as nat, encoded@),
                        d.tile_offsets_value_addresses@[linear_index as int] as nat,
                        le32((old(self).next_write_offset as u32) as nat),
                    ),
                    d.tile_byte_counts_value_addresses@[linear_index as int] as nat,
                    le32(encoded@.len()),
                )
            },
    {
        if linear_index != self.next_linear_index {
            return Err(
                Error::invalid_argument("TiffImageSink::writeTile: tiled+compressed requires tiles in row-major order"),
            );
        }
        if encoded.len() as u64 > 0xFFFF_FFFFu64 {
            return Err(Error::invalid_argument("TiffImageSink::writeTile: compressed tile exceeds uint32 size"));
        }
        let tile_count = self.directory.tile_offsets_value_addresses.len();
        if linear_index >= tile_count || linear_index >= self.directory.tile_byte_counts_value_addresses.len() {
            return Err(Error::out_of_range("TiffImageSink::writeTile: tile index outside TileOffsets table"));
        }
        let offset = self.next_write_offset;
        self.write_at(offset, encoded)?;
        let next = match offset.checked_add(encoded.len() as u64) {
            Some(v) => v,
            None => {
                return Err(Error::invalid_argument("TiffImageSink::writeTile: tile layout overflows"));
            },
        };
        let mut offset_bytes: Vec<u8> = vec![0u8; 4];
        write_u32(offset_bytes.as_mut_slice(), offset as u32, Endian::Little);
        proof {
            lemma_le_bytes_len((offset as u32) as nat, 4);
        }
        assert(offset_bytes@ =~= le32((offset as u32) as nat));
        let offset_slot = self.directory.tile_offsets_value_addresses[linear_index];
        self.write_at(offset_slot, offset_bytes.as_slice())?;
        let mut count_bytes: Vec<u8> = vec![0u8; 4];
        write_u32(count_bytes.as_mut_slice(), encoded.len() as u32, Endian::Little);
        proof {
            lemma_le_bytes_len(encoded@.len(), 4);
        }
        assert(count_bytes@ =~= le32(encoded@.len()));
        let count_slot = self.directory.tile_byte_counts_value_addresses[linear_index];
        self.write_at(count_slot, count_bytes.as_slice())?;
        self.writer.seek(next)?;
        self.next_write_offset = next;
        self.next_linear_index = self.next_linear_index + 1;
        Ok(())
    }
}

} // verus!
