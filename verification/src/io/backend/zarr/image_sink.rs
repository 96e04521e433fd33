//! Writes the chunks of one Zarr-style image, each into its fixed-size
//! slot: a 4-byte little-endian payload length, the payload, zero padding.
use crate::error::{Error, ErrorCode, Result};
use crate::io::backend::tiff::compression::deflate::{zlib_compressed, DEFLATE_LEVEL};
use crate::io::backend::tiff::endian::{lemma_le_bytes_len, write_u32, Endian};
use crate::io::backend::tiff::image_sink::{le32, linear_tile};
use crate::io::binary_writer::{lemma_overwrite_at_concat, overwrite_at, BinaryWriter};
use crate::tile::{Tile, TileIndex, TileLayout};
use vstd::prelude::*;

use super::codec::{compress, zstd_compressed, ZSTD_LEVEL};
use super::document::{Compressor, ZarrLayout};

verus! {

/// The stored payload of a chunk of raw bytes `data`.
pub open spec fn chunk_payload(c: Compressor, data: Seq<u8>) -> Seq<u8> {
    match c {
        Compressor::NoCompression => data,
        Compressor::Zstd => zstd_compressed(data, ZSTD_LEVEL),
        Compressor::Zlib => zlib_compressed(data, DEFLATE_LEVEL),
    }
}

/// A slot of `slot` bytes holding `payload`: its length, the payload, and
/// zeros up to the slot size.
pub open spec fn slot_bytes(payload: Seq<u8>, slot: nat) -> Seq<u8> {
    le32(payload.len()) + payload + Seq::new((slot - 4 - payload.len()) as nat, |i: int| 0u8)
}

/// Where the slot of chunk `index` starts: its row-major position times
/// the slot size past the pixel region.
pub open spec fn slot_offset(l: ZarrLayout, pixel_region: u64, index: TileIndex) -> int {
    pixel_region + linear_tile(l.layout, index.column, index.row, index.level) * l.slot_size
}

/// Writes the chunks of one image through a writer.
pub struct ZarrImageSink<W> {
    writer: W,
    layout: ZarrLayout,
    pixel_region: u64,
}

impl<W: BinaryWriter> ZarrImageSink<W> {
    /// The writer.
    pub closed spec fn sink_writer(&self) -> W {
        self.writer
    }

    /// The chunk geometry.
    pub closed spec fn sink_layout(&self) -> ZarrLayout {
        self.layout
    }

    /// Where the first slot starts.
    pub closed spec fn region_start(&self) -> u64 {
        self.pixel_region
    }

    /// A sink over `writer` for the chunk geometry `layout`, slots starting
    /// at `pixel_region`.
    pub fn new(writer: W, layout: ZarrLayout, pixel_region: u64) -> (s: Self)
        ensures
            s.sink_writer() == writer,
            s.sink_layout() == layout,
            s.region_start() == pixel_region,
    {
        ZarrImageSink { writer, layout, pixel_region }
    }

    /// The image's tile grid.
    pub fn layout(&self) -> (l: TileLayout)
        ensures
            l == self.sink_layout().layout,
    {
        self.layout.layout
    }

    /// The writer, handed back.
    pub fn into_writer(self) -> (w: W)
        ensures
            w == self.sink_writer(),
    {
        self.writer
    }

    /// Writes all of `src` at the cursor.
    fn put(&mut self, src: &[u8], what: &str) -> (r: Result<()>)
        ensures
            final(self).layout == old(self).layout,
            final(self).pixel_region == old(self).pixel_region,
            final(self).writer.reliable() == old(self).writer.reliable(),
            old(self).writer.reliable() && old(self).writer.pos() + src@.len() <= usize::MAX ==> r is Ok,
            r is Ok ==> final(self).writer.bytes() == overwrite_at(old(self).writer.bytes(), old(self).writer.pos(), src@),
            r is Ok ==> final(self).writer.pos() == old(self).writer.pos() + src@.len(),
    {
        let n = self.writer.write(src)?;
        if n != src.len() {
            return Err(Error::invalid_argument(what));
        }
        assert(src@.subrange(0, n as int) =~= src@);
        Ok(())
    }

    /// Writes one chunk into its slot ([`slot_offset`]): the tile's bytes
    /// are compressed and stored as [`slot_bytes`]. An index outside the
    /// grid fails with [`ErrorCode::OutOfRange`]; tile bytes other than the
    /// chunk size, a slot under 4 bytes, an offset past `u64` or a payload
    /// too large for its slot fail with [`ErrorCode::InvalidArgument`].
    #[verifier::rlimit(30)]
    #[verifier::spinoff_prover]
    pub fn write_tile(&mut self, tile: &Tile) -> (r: Result<()>)
        requires
            old(self).sink_layout().layout.tile_size.width > 0,
            old(self).sink_layout().layout.tile_size.height > 0,
        ensures
            final(self).sink_layout() == old(self).sink_layout(),
            final(self).region_start() == old(self).region_start(),
            final(self).sink_writer().reliable() == old(self).sink_writer().reliable(),
            ({
                let l = old(self).sink_layout();
                let index = tile.tile_index();
                let offset = slot_offset(l, old(self).region_start(), index);
                let payload = chunk_payload(l.compressor, tile.bytes());
                let valid = l.layout.holds(index) && tile.bytes().len() == l.chunk_bytes && l.slot_size >= 4 && offset <= u64::MAX;
                let old_bytes = old(self).sink_writer().bytes();
                &&& !l.layout.holds(index) ==> (r matches Err(e) && e.kind() == ErrorCode::OutOfRange && *final(self) == *old(self))
                &&& l.layout.holds(index) && !valid ==> (r matches Err(e) && e.kind() == ErrorCode::InvalidArgument && *final(self) == *old(self))
                &&& valid && 4 + payload.len() > l.slot_size ==> r is Err
                &&& valid && l.compressor == Compressor::NoCompression && 4 + payload.len() <= l.slot_size
                    && old(self).sink_writer().reliable() && offset <= old_bytes.len() && offset + l.slot_size <= usize::MAX ==> r is Ok
                &&& r is Ok ==> {
                    &&& valid
                    &&& 4 + payload.len() <= l.slot_size
                    &&& final(self).sink_writer().bytes() == overwrite_at(old_bytes, offset as nat, slot_bytes(payload, l.slot_size as nat))
                }
            }),
    {
        let index = tile.index();
        let _region = self.layout.layout.region_for(index)?;
        let data = tile.data();
        if data.len() as u64 != self.layout.chunk_bytes as u64 {
            return Err(Error::invalid_argument("zarr: tile byte count does not match the chunk size"));
        }
        if self.layout.slot_size < 4 {
            return Err(Error::invalid_argument("zarr: invalid slot size"));
        }
        let columns = self.layout.layout.columns(index.level);
        assert(index.row as u64 * columns as u64 <= 0xFFFF_FFFE_0000_0001u64) by (nonlinear_arith)
            requires
                index.row <= u32::MAX,
                columns <= u32::MAX,
        ;
        let linear = index.row as u64 * columns as u64 + index.column as u64;
        let slot = self.layout.slot_size as u64;
        let scaled = match linear.checked_mul(slot) {
            Some(v) => v,
            None => {
                return Err(Error::invalid_argument("zarr: chunk offset overflows"));
            },
        };
        let chunk_offset = match self.pixel_region.checked_add(scaled) {
            Some(v) => v,
            None => {
                return Err(Error::invalid_argument("zarr: chunk offset overflows"));
            },
        };
        let compressed = compress(self.layout.compressor, data)?;
        if compressed.len() as u64 > self.layout.slot_size as u64 - 4 {
            return Err(Error::invalid_argument("zarr: compressed chunk exceeds its slot"));
        }
        let mut len_bytes: Vec<u8> = vec![0u8; 4];
        write_u32(len_bytes.as_mut_slice(), compressed.len() as u32, Endian::Little);
        proof {
            lemma_le_bytes_len(compressed@.len(), 4);
        }
        assert(len_bytes@ =~= le32(compressed@.len()));
        let padding = self.layout.slot_size as usize - 4 - compressed.len();
        let zeros: Vec<u8> = vec![0u8; padding];
        let ghost b0 = self.writer.bytes();
        self.writer.seek(chunk_offset)?;
        self.put(len_bytes.as_slice(), "zarr: short length write")?;
        self.put(compressed.as_slice(), "zarr: short payload write")?;
        if padding > 0 {
            self.put(zeros.as_slice(), "zarr: short padding write")?;
        }
        proof {
            lemma_overwrite_at_concat(b0, chunk_offset as nat, len_bytes@, compressed@);
            lemma_overwrite_at_concat(b0, chunk_offset as nat, len_bytes@ + compressed@, zeros@);
            assert(len_bytes@ + compressed@ + zeros@ =~= slot_bytes(compressed@, self.layout.slot_size as nat));
            if padding == 0 {
                assert(len_bytes@ + compressed@ + zeros@ =~= len_bytes@ + compressed@);
            }
        }
        Ok(())
    }
}

} // verus!
