//! Reads the chunks of one Zarr-style image from their fixed-size slots.
use crate::error::{Error, ErrorCode, Result};
use crate::io::backend::tiff::endian::{read_u32, uint_value, Endian};
use crate::io::backend::tiff::image_sink::linear_tile;
use crate::io::binary_reader::BinaryReader;
use crate::tile::{Tile, TileId, TileIndex, TileLayout};
use vstd::prelude::*;

use super::codec::{decompress, decompressed};
use super::document::ZarrLayout;
use super::image_sink::slot_offset;

verus! {

/// The payload length a slot at `offset` of the input `b` declares.
pub open spec fn declared_payload_len(b: Seq<u8>, offset: int) -> nat {
    uint_value(b.subrange(offset, offset + 4), 4, Endian::Little)
}

/// The raw chunk stored in the slot of `index`, when the slot lies in the
/// input, declares a payload that fits it, and that payload decompresses
/// to exactly one chunk.
pub open spec fn stored_chunk(l: ZarrLayout, pixel_region: u64, index: TileIndex, b: Seq<u8>) -> Option<Seq<u8>> {
    let offset = slot_offset(l, pixel_region, index);
    let n = declared_payload_len(b, offset);
    if l.slot_size == 0 || l.chunk_bytes == 0 || offset > u64::MAX || offset + l.slot_size > b.len() {
        None
    } else if n == 0 || n > l.slot_size - 4 || l.chunk_bytes >= usize::MAX {
        None
    } else {
        decompressed(l.compressor, b.subrange(offset + 4, offset + 4 + n), l.chunk_bytes as nat)
    }
}

/// Reads the chunks of one image through a reader.
pub struct ZarrImageSource<R> {
    reader: R,
    layout: ZarrLayout,
    pixel_region: u64,
    buffer: Vec<u8>,
}

impl<R: BinaryReader> ZarrImageSource<R> {
    /// The reader.
    pub closed spec fn source_reader(&self) -> R {
        self.reader
    }

    /// The chunk geometry.
    pub closed spec fn source_layout(&self) -> ZarrLayout {
        self.layout
    }

    /// Where the first slot starts.
    pub closed spec fn region_start(&self) -> u64 {
        self.pixel_region
    }

    /// A source over `reader` for the chunk geometry `layout`, slots
    /// starting at `pixel_region`.
    pub fn new(reader: R, layout: ZarrLayout, pixel_region: u64) -> (s: Self)
        ensures
            s.source_reader() == reader,
            s.source_layout() == layout,
            s.region_start() == pixel_region,
    {
        ZarrImageSource { reader, layout, pixel_region, buffer: Vec::new() }
    }

    /// The image's tile grid.
    pub fn layout(&self) -> (l: TileLayout)
        ensures
            l == self.source_layout().layout,
    {
        self.layout.layout
    }

    /// The reader, handed back.
    pub fn into_reader(self) -> (r: R)
        ensures
            r == self.source_reader(),
    {
        self.reader
    }

    /// Reads the chunk at `index` from its slot ([`stored_chunk`]). An
    /// index outside the grid fails with [`ErrorCode::OutOfRange`]; on a
    /// reliable reader every other failure is
    /// [`ErrorCode::InvalidArgument`]. The tile's id is its row-major
    /// position.
    #[verifier::rlimit(30)]
    #[verifier::spinoff_prover]
    pub fn read_tile(&mut self, index: TileIndex) -> (r: Result<Tile<'_>>)
        requires
            old(self).source_layout().layout.tile_size.width > 0,
            old(self).source_layout().layout.tile_size.height > 0,
            old(self).source_layout().slot_size == 0 || old(self).source_layout().slot_size >= 4,
        ensures
            final(self).source_layout() == old(self).source_layout(),
            final(self).region_start() == old(self).region_start(),
            final(self).source_reader().bytes() == old(self).source_reader().bytes(),
            final(self).source_reader().reliable() == old(self).source_reader().reliable(),
            ({
                let l = old(self).source_layout();
                let input = old(self).source_reader().bytes();
                let chunk = stored_chunk(l, old(self).region_start(), index, input);
                &&& !l.layout.holds(index) ==> (r matches Err(e) && e.kind() == ErrorCode::OutOfRange)
                &&& old(self).source_reader().reliable() ==> (r is Ok <==> l.layout.holds(index) && chunk is Some)
                &&& old(self).source_reader().reliable() && l.layout.holds(index) && chunk is None ==> (r matches Err(e)
                    && e.kind() == ErrorCode::InvalidArgument)
                &&& r matches Ok(t) ==> {
                    &&& l.layout.holds(index)
                    &&& chunk == Some(t.bytes())
                    &&& t.tile_index() == index
                    &&& t.tile_id().id_value() == linear_tile(l.layout, index.column, index.row, index.level)
                }
            }),
    {
        let region = self.layout.layout.region_for(index)?;
        if self.layout.slot_size == 0 || self.layout.chunk_bytes == 0 {
            return Err(Error::invalid_argument("zarr: zero chunk geometry"));
        }
        let columns = self.layout.layout.columns(index.level);
        assert(index.row as u64 * columns as u64 <= 0xFFFF_FFFE_0000_0001u64) by (nonlinear_arith)
            requires
                index.row <= u32::MAX,
                columns <= u32::MAX,
        ;
        let linear = index.row as u64 * columns as u64 + index.column as u64;
        let slot = self.layout.slot_size as u64;
        let scaled = match linear.checked_mul(slot) {
            Some(v) => v,
            None => {
                return Err(Error::invalid_argument("zarr: chunk offset overflows"));
            },
        };
        let chunk_offset = match self.pixel_region.checked_add(scaled) {
            Some(v) => v,
            None => {
                return Err(Error::invalid_argument("zarr: chunk offset overflows"));
            },
        };
        let file_size = self.reader.size()?;
        if chunk_offset > file_size || slot > file_size - chunk_offset {
            return Err(Error::invalid_argument("zarr: chunk slot exceeds reader size"));
        }
        let ghost b = self.reader.bytes();
        let mut len_bytes: Vec<u8> = vec![0u8; 4];
        self.reader.seek(chunk_offset)?;
        let n = self.reader.read(len_bytes.as_mut_slice())?;
        if n != 4 {
            return Err(Error::invalid_argument("zarr: truncated chunk length"));
        }
        assert(len_bytes@ =~= b.subrange(chunk_offset as int, chunk_offset + 4));
        let payload_len = read_u32(len_bytes.as_slice(), Endian::Little);
        assert(len_bytes@.subrange(0, 4) =~= len_bytes@);
        if payload_len == 0 || payload_len as u64 > slot - 4 {
            return Err(Error::invalid_argument("zarr: invalid chunk payload length"));
        }
        let mut payload: Vec<u8> = vec![0u8; payload_len as usize];
        let read_payload = self.reader.read(payload.as_mut_slice())?;
        if read_payload != payload.len() {
            return Err(Error::invalid_argument("zarr: truncated chunk payload"));
        }
        assert(payload@ =~= b.subrange(chunk_offset + 4, chunk_offset + 4 + payload_len));
        if self.layout.chunk_bytes as u64 >= usize::MAX as u64 {
            return Err(Error::invalid_argument("zarr: chunk size exceeds the address range"));
        }
        let pixels = decompress(self.layout.compressor, payload.as_slice(), self.layout.chunk_bytes as usize)?;
        self.buffer = pixels;
        Ok(Tile::new(TileId::new(linear), index, region, self.buffer.as_slice()))
    }
}

} // verus!
