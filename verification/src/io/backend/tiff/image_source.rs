//! Reads an image's tiles from a TIFF file: each tile's stored bytes from
//! its byte range, decoded through the compression and the predictor.
use super::compression::predictor::geometry_ok;
use super::directory::{TiffCompression, TiffDirectory, TiffPredictor};
use super::endian::Endian;
use super::image_sink::linear_tile;
use super::pixel_format::bytes_per_sample;
use super::tile_codec::{decode_tile_bytes, decoded_payload, tile_decoded_size, unpredicted, TileDecodeParams};
use crate::error::{Error, ErrorCode, Result};
use crate::io::binary_reader::BinaryReader;
use crate::pixel_type::sample_bytes;
use crate::tile::{Tile, TileId, TileIndex, TileLayout};
use vstd::prelude::*;

verus! {

/// The decoding parameters of a directory's tiles.
pub open spec fn decode_params(d: TiffDirectory) -> TileDecodeParams {
    TileDecodeParams {
        width: d.layout.tile_size.width,
        height: d.layout.tile_size.height,
        samples_per_pixel: d.samples_per_pixel,
        bytes_per_sample: sample_bytes(d.pixel_type) as u8,
        predictor_horizontal: d.predictor == TiffPredictor::HorizontalDifferencing,
        big_endian: d.endian == Endian::Big,
        compression: d.compression,
    }
}

/// The decoded byte size of one tile of a directory.
pub open spec fn tile_bytes_of(d: TiffDirectory) -> int {
    d.layout.tile_size.width * d.layout.tile_size.height * d.samples_per_pixel * sample_bytes(d.pixel_type)
}

/// Whether a directory's decoded tile size can be computed and held: the
/// products fit in 64 bits and the size lies below `usize::MAX`.
pub open spec fn tile_size_fits(d: TiffDirectory) -> bool {
    let w = d.layout.tile_size.width;
    let h = d.layout.tile_size.height;
    let s = d.samples_per_pixel;
    &&& w * h <= u64::MAX
    &&& w * h * s <= u64::MAX
    &&& tile_bytes_of(d) <= u64::MAX
    &&& tile_bytes_of(d) < usize::MAX
}

/// Whether the `k`-th tile of a directory can be read from `input`: its
/// byte range lies inside the input and fits in memory, and, for the codecs
/// other than JPEG, its stored bytes decode to [`tile_bytes_of`] bytes that
/// the predictor (when on) accepts.
pub open spec fn tile_decodes(d: TiffDirectory, input: Seq<u8>, k: int) -> bool {
    let range = d.tile_byte_ranges@[k];
    let stored = input.subrange(range.offset as int, range.offset + range.byte_count);
    &&& range.offset + range.byte_count <= input.len()
    &&& range.byte_count <= usize::MAX
    &&& d.compression != TiffCompression::Jpeg ==> {
        &&& decoded_payload(d.compression, stored, tile_bytes_of(d) as nat) is Some
        &&& d.predictor == TiffPredictor::HorizontalDifferencing ==> geometry_ok(
            tile_bytes_of(d) as nat,
            d.layout.tile_size.width,
            d.samples_per_pixel,
            sample_bytes(d.pixel_type) as u8,
        )
    }
}

/// Reads the tiles of one image through a reader.
pub struct TiffImageSource<R> {
    reader: R,
    directory: TiffDirectory,
    buffer: Vec<u8>,
}

impl<R: BinaryReader> TiffImageSource<R> {
    /// The reader.
    pub closed spec fn source_reader(&self) -> R {
        self.reader
    }

    /// The directory being read.
    pub closed spec fn source_directory(&self) -> TiffDirectory {
        self.directory
    }

    /// A source over `reader` for `directory`.
    pub fn new(reader: R, directory: TiffDirectory) -> (s: Self)
        ensures
            s.source_reader() == reader,
            s.source_directory() == directory,
    {
        TiffImageSource { reader, directory, buffer: Vec::new() }
    }

    /// The image's tile grid.
    pub fn layout(&self) -> (l: TileLayout)
        ensures
            l == self.source_directory().layout,
    {
        self.directory.layout
    }

    /// The reader, handed back.
    pub fn into_reader(self) -> (r: R)
        ensures
            r == self.source_reader(),
    {
        self.reader
    }

    fn decode_params(&self) -> (p: TileDecodeParams)
        ensures
            p == decode_params(self.directory),
    {
        TileDecodeParams {
            width: self.directory.layout.tile_size.width,
            height: self.directory.layout.tile_size.height,
            samples_per_pixel: self.directory.samples_per_pixel,
            bytes_per_sample: bytes_per_sample(self.directory.pixel_type),
            predictor_horizontal: self.directory.predictor == TiffPredictor::HorizontalDifferencing,
            big_endian: self.directory.endian == Endian::Big,
            compression: self.directory.compression,
        }
    }

    /// Reads the stored bytes of a byte range.
    fn read_range(&mut self, offset: u64, byte_count: u64) -> (r: Result<Vec<u8>>)
        ensures
            final(self).directory == old(self).directory,
            final(self).reader.bytes() == old(self).reader.bytes(),
            final(self).reader.reliable() == old(self).reader.reliable(),
            r matches Ok(v) ==> byte_count <= usize::MAX && offset + byte_count <= old(self).reader.bytes().len() && v@ == old(
                self,
            ).reader.bytes().subrange(offset as int, offset + byte_count),
            old(self).reader.reliable() ==> (r is Ok <==> offset + byte_count <= old(
                self,
            ).reader.bytes().len() && byte_count <= usize::MAX),
            old(self).reader.reliable() ==> (r matches Err(e) ==> e.kind() == ErrorCode::InvalidArgument),
    {
        let file_size = self.reader.size()?;
        if offset > file_size || byte_count > file_size - offset {
            return Err(
                Error::invalid_argument("TiffImageSource::readTile: tile byte range exceeds underlying reader size"),
            );
        }
        if byte_count > usize::MAX as u64 {
            return Err(
                Error::invalid_argument("TiffImageSource::readTile: tile byte range exceeds underlying reader size"),
            );
        }
        let raw_len = byte_count as usize;
        let mut raw: Vec<u8> = vec![0u8; raw_len];
        self.reader.seek(offset)?;
        let ghost b = self.reader.bytes();
        let n = self.reader.read(raw.as_mut_slice())?;
        if n != raw_len {
            return Err(Error::invalid_argument("TiffImageSource::readTile: truncated tile data"));
        }
        assert(raw@ =~= b.subrange(offset as int, offset + byte_count));
        Ok(raw)
    }

    /// Reads one tile: [`ErrorCode::OutOfRange`] when the index lies
    /// outside the grid or the byte-range table; else its stored bytes are
    /// read from its byte range ([`ErrorCode::InvalidArgument`] when the
    /// range lies past the end of the input) and decoded, wanting
    /// [`tile_bytes_of`] bytes, through the compression and the predictor
    /// (`decode_tile_bytes`). The tile's id is its row-major position.
    pub fn read_tile(&mut self, index: TileIndex) -> (r: Result<Tile<'_>>)
        requires
            old(self).source_directory().layout.tile_size.width > 0,
            old(self).source_directory().layout.tile_size.height > 0,
        ensures
            final(self).source_directory() == old(self).source_directory(),
            final(self).source_reader().bytes() == old(self).source_reader().bytes(),
            final(self).source_reader().reliable() == old(self).source_reader().reliable(),
            ({
                let d = old(self).source_directory();
                let li = linear_tile(d.layout, index.column, index.row, index.level);
                let input = old(self).source_reader().bytes();
                &&& !d.layout.holds(index) ==> (r matches Err(e) && e.kind() == ErrorCode::OutOfRange)
                &&& (d.layout.holds(index) && li >= d.tile_byte_ranges@.len()) ==> (r matches Err(e) && e.kind()
                    == ErrorCode::OutOfRange)
                &&& r matches Ok(t) ==> {
                    let range = d.tile_byte_ranges@[li];
                    let stored = input.subrange(range.offset as int, range.offset + range.byte_count);
                    &&& d.layout.holds(index)
                    &&& li < d.tile_byte_ranges@.len()
                    &&& range.offset + range.byte_count <= input.len()
                    &&& t.tile_index() == index
                    &&& t.tile_id().id_value() == li
                    &&& tile_bytes_of(d) < usize::MAX
                    &&& d.compression != TiffCompression::Jpeg ==> unpredicted(
                        decoded_payload(d.compression, stored, tile_bytes_of(d) as nat)->0,
                        d.layout.tile_size.width,
                        d.samples_per_pixel,
                        sample_bytes(d.pixel_type) as u8,
                        d.endian == Endian::Big,
                        d.predictor == TiffPredictor::HorizontalDifferencing,
                        t.bytes(),
                    )
                    &&& d.compression == TiffCompression::Jpeg ==> t.bytes().len() == d.layout.tile_size.width
                        * d.layout.tile_size.height * d.samples_per_pixel
                }
            }),
    {
        let region = self.directory.layout.region_for(index)?;
        let columns = self.directory.layout.columns(index.level);
        assert(index.row as u64 * columns as u64 <= 0xFFFF_FFFE_0000_0001u64) by (nonlinear_arith)
            requires
                index.row <= u32::MAX,
                columns <= u32::MAX,
        ;
        let linear_index = index.row as u64 * columns as u64 + index.column as u64;
        if linear_index >= self.directory.tile_byte_ranges.len() as u64 {
            return Err(Error::out_of_range("TiffImageSource::readTile: index outside byte range table"));
        }
        let range = self.directory.tile_byte_ranges[linear_index as usize];
        let raw = self.read_range(range.offset, range.byte_count)?;
        let expected_size = tile_decoded_size(
            self.directory.layout.tile_size.width,
            self.directory.layout.tile_size.height,
            self.directory.samples_per_pixel,
            bytes_per_sample(self.directory.pixel_type),
        )?;
        if expected_size == usize::MAX {
            return Err(Error::invalid_argument("TiffImageSource::readTile: tile size computation overflows"));
        }
        let params = self.decode_params();
        self.buffer = decode_tile_bytes(raw.as_slice(), expected_size, params)?;
        Ok(Tile::new(TileId::new(linear_index), index, region, self.buffer.as_slice()))
    }

    /// Reads every tile of level 0 in row-major order (the byte-range
    /// table's order) and decodes each, giving their raw pixel bytes. It
    /// fails when the tile size cannot be computed ([`tile_size_fits`]);
    /// on a reliable reader every failure is
    /// [`ErrorCode::InvalidArgument`], and for the codecs other than JPEG
    /// it succeeds exactly when every tile can be read
    /// ([`tile_decodes`]). A JPEG tile comes out as
    /// `width * height * samples` bytes.
    pub fn read_all_tiles(&mut self) -> (r: Result<Vec<Vec<u8>>>)
        ensures
            final(self).source_directory() == old(self).source_directory(),
            final(self).source_reader().bytes() == old(self).source_reader().bytes(),
            final(self).source_reader().reliable() == old(self).source_reader().reliable(),
            !tile_size_fits(old(self).source_directory()) ==> r is Err,
            old(self).source_reader().reliable() ==> (r matches Err(e) ==> e.kind() == ErrorCode::InvalidArgument),
            (old(self).source_reader().reliable() && old(self).source_directory().compression
                != TiffCompression::Jpeg) ==> (r is Ok <==> (tile_size_fits(old(self).source_directory())
                && forall|k: int|
                0 <= k < old(self).source_directory().tile_byte_ranges@.len() ==> #[trigger] tile_decodes(
                    old(self).source_directory(),
                    old(self).source_reader().bytes(),
                    k,
                ))),
            r matches Ok(tiles) ==> (old(self).source_directory().compression == TiffCompression::Jpeg ==> forall|
                k: int,
            |
                0 <= k < tiles@.len() ==> #[trigger] tiles@[k]@.len() == old(
                    self,
                ).source_directory().layout.tile_size.width * old(self).source_directory().layout.tile_size.height
                    * old(self).source_directory().samples_per_pixel),
            r matches Ok(tiles) ==> {
                let d = old(self).source_directory();
                let input = old(self).source_reader().bytes();
                &&& tiles@.len() == d.tile_byte_ranges@.len()
                &&& tile_bytes_of(d) < usize::MAX
                &&& forall|k: int|
                    0 <= k < tiles@.len() ==> {
                        let range = #[trigger] d.tile_byte_ranges@[k];
                        let stored = input.subrange(range.offset as int, range.offset + range.byte_count);
                        &&& range.offset + range.byte_count <= input.len()
                        &&& d.compression != TiffCompression::Jpeg ==> unpredicted(
                            decoded_payload(d.compression, stored, tile_bytes_of(d) as nat)->0,
                            d.layout.tile_size.width,
                            d.samples_per_pixel,
                            sample_bytes(d.pixel_type) as u8,
                            d.endian == Endian::Big,
                            d.predictor == TiffPredictor::HorizontalDifferencing,
                            tiles@[k]@,
                        )
                    }
            },
    {
        let expected_size = tile_decoded_size(
            self.directory.layout.tile_size.width,
            self.directory.layout.tile_size.height,
            self.directory.samples_per_pixel,
            bytes_per_sample(self.directory.pixel_type),
        )?;
        if expected_size == usize::MAX {
            return Err(Error::invalid_argument("TiffImageSource::readTile: tile size computation overflows"));
        }
        let params = self.decode_params();
        let ghost d = self.directory;
        let ghost input = self.reader.bytes();
        let n = self.directory.tile_byte_ranges.len();
        let mut out: Vec<Vec<u8>> = Vec::new();
        let mut k: usize = 0;
        while k < n
            invariant
                self.directory == d,
                d == old(self).directory,
                self.reader.bytes() == input,
                input == old(self).reader.bytes(),
                n == d.tile_byte_ranges@.len(),
                k <= n,
                out@.len() == k,
                params == decode_params(d),
                expected_size == tile_bytes_of(d),
                expected_size < usize::MAX,
                tile_size_fits(d),
                self.reader.reliable() == old(self).reader.reliable(),
                forall|j: int| 0 <= j < k ==> #[trigger] tile_decodes(d, input, j),
                d.compression == TiffCompression::Jpeg ==> forall|j: int|
                    0 <= j < k ==> #[trigger] out@[j]@.len() == d.layout.tile_size.width
                        * d.layout.tile_size.height * d.samples_per_pixel,
                forall|j: int|
                    0 <= j < k ==> {
                        let range = #[trigger] d.tile_byte_ranges@[j];
                        let stored = input.subrange(range.offset as int, range.offset + range.byte_count);
                        &&& range.offset + range.byte_count <= input.len()
                        &&& d.compression != TiffCompression::Jpeg ==> unpredicted(
                            decoded_payload(d.compression, stored, tile_bytes_of(d) as nat)->0,
                            d.layout.tile_size.width,
                            d.samples_per_pixel,
                            sample_bytes(d.pixel_type) as u8,
                            d.endian == Endian::Big,
                            d.predictor == TiffPredictor::HorizontalDifferencing,
                            out@[j]@,
                        )
                    },
            decreases n - k,
        {
            let range = self.directory.tile_byte_ranges[k];
            let raw = match self.read_range(range.offset, range.byte_count) {
                Ok(v) => v,
                Err(e) => {
                    proof {
                        assert(self.reader.reliable() ==> !tile_decodes(d, input, k as int));
                    }
                    return Err(e);
                },
            };
            let tile = match decode_tile_bytes(raw.as_slice(), expected_size, params) {
                Ok(v) => v,
                Err(e) => {
                    proof {
                        assert(d.compression != TiffCompression::Jpeg ==> !tile_decodes(d, input, k as int));
                    }
                    return Err(e);
                },
            };
            proof {
                assert(tile_decodes(d, input, k as int));
            }
            out.push(tile);
            k = k + 1;
        }
        Ok(out)
    }
}

} // verus!
