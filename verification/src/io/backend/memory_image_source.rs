//! Reads the tiles of one in-memory image from fixed linear byte offsets.
use crate::error::{Error, ErrorCode, Result};
use crate::io::binary_reader::BinaryReader;
use crate::tile::{Tile, TileId, TileIndex, TileLayout};
use vstd::prelude::*;

use super::memory_image_sink::memory_tile_offset;
use super::memory_layout::MemoryImageInfo;
use super::tiff::image_sink::linear_tile;

verus! {

/// Reads the tiles of one image through a reader, each from its linear
/// offset past the image's first pixel byte.
pub struct MemoryImageSource<R> {
    reader: R,
    info: MemoryImageInfo,
    image_pixel_start: u64,
    buffer: Vec<u8>,
}

impl<R: BinaryReader> MemoryImageSource<R> {
    /// The reader.
    pub closed spec fn source_reader(&self) -> R {
        self.reader
    }

    /// The image's layout and sizes.
    pub closed spec fn source_info(&self) -> MemoryImageInfo {
        self.info
    }

    /// The absolute offset of the image's first pixel byte.
    pub closed spec fn pixel_start(&self) -> u64 {
        self.image_pixel_start
    }

    /// A source over `reader` for the image `info` whose pixels start at
    /// `image_pixel_start`.
    pub fn new(reader: R, info: MemoryImageInfo, image_pixel_start: u64) -> (s: Self)
        ensures
            s.source_reader() == reader,
            s.source_info() == info,
            s.pixel_start() == image_pixel_start,
    {
        MemoryImageSource { reader, info, image_pixel_start, buffer: Vec::new() }
    }

    /// The image's tile grid.
    pub fn layout(&self) -> (l: TileLayout)
        ensures
            l == self.source_info().layout,
    {
        self.info.layout
    }

    /// The reader, handed back.
    pub fn into_reader(self) -> (r: R)
        ensures
            r == self.source_reader(),
    {
        self.reader
    }

    /// Reads the tile at `index`: the tile-size bytes at
    /// [`memory_tile_offset`]. An index outside the grid fails with
    /// [`ErrorCode::OutOfRange`]; an offset past `u64` or a byte range past
    /// the end of the input fails with [`ErrorCode::InvalidArgument`]. The
    /// tile's id is its row-major position.
    pub fn read_tile(&mut self, index: TileIndex) -> (r: Result<Tile<'_>>)
        requires
            old(self).source_info().layout.tile_size.width > 0,
            old(self).source_info().layout.tile_size.height > 0,
        ensures
            final(self).source_info() == old(self).source_info(),
            final(self).pixel_start() == old(self).pixel_start(),
            final(self).source_reader().bytes() == old(self).source_reader().bytes(),
            final(self).source_reader().reliable() == old(self).source_reader().reliable(),
            ({
                let info = old(self).source_info();
                let offset = memory_tile_offset(info, old(self).pixel_start(), index);
                let input = old(self).source_reader().bytes();
                let fits = offset <= u64::MAX && offset + info.tile_bytes <= input.len() && info.tile_bytes <= usize::MAX;
                &&& !info.layout.holds(index) ==> (r matches Err(e) && e.kind() == ErrorCode::OutOfRange)
                &&& info.layout.holds(index) && offset > u64::MAX ==> (r matches Err(e) && e.kind() == ErrorCode::InvalidArgument)
                &&& old(self).source_reader().reliable() ==> (r is Ok <==> info.layout.holds(index) && fits)
                &&& old(self).source_reader().reliable() && info.layout.holds(index) && !fits ==> (r matches Err(e) && e.kind() == ErrorCode::InvalidArgument)
                &&& r matches Ok(t) ==> {
                    &&& info.layout.holds(index)
                    &&& fits
                    &&& t.tile_index() == index
                    &&& t.tile_id().id_value() == linear_tile(info.layout, index.column, index.row, index.level)
                    &&& t.bytes() == input.subrange(offset, offset + info.tile_bytes)
                }
            }),
    {
        let region = self.info.layout.region_for(index)?;
        let columns = self.info.layout.columns(index.level);
        assert(index.row as u64 * columns as u64 <= 0xFFFF_FFFE_0000_0001u64) by (nonlinear_arith)
            requires
                index.row <= u32::MAX,
                columns <= u32::MAX,
        ;
        let linear_index = index.row as u64 * columns as u64 + index.column as u64;
        let tile_offset = match linear_index.checked_mul(self.info.tile_bytes) {
            Some(v) => v,
            None => {
                return Err(Error::invalid_argument("MemoryImageSource::readTile: absolute tile offset overflows"));
            },
        };
        let absolute_offset = match self.image_pixel_start.checked_add(tile_offset) {
            Some(v) => v,
            None => {
                return Err(Error::invalid_argument("MemoryImageSource::readTile: absolute tile offset overflows"));
            },
        };
        let file_size = self.reader.size()?;
        if absolute_offset > file_size || self.info.tile_bytes > file_size - absolute_offset {
            return Err(Error::invalid_argument("MemoryImageSource::readTile: tile byte range exceeds reader size"));
        }
        if self.info.tile_bytes > usize::MAX as u64 {
            return Err(Error::invalid_argument("MemoryImageSource::readTile: tile byte range exceeds reader size"));
        }
        let tile_bytes = self.info.tile_bytes as usize;
        let mut raw: Vec<u8> = vec![0u8; tile_bytes];
        self.reader.seek(absolute_offset)?;
        let ghost b = self.reader.bytes();
        let n = self.reader.read(raw.as_mut_slice())?;
        if n != tile_bytes {
            return Err(Error::invalid_argument("MemoryImageSource::readTile: truncated tile data"));
        }
        assert(raw@ =~= b.subrange(absolute_offset as int, absolute_offset + self.info.tile_bytes));
        self.buffer = raw;
        Ok(Tile::new(TileId::new(linear_index), index, region, self.buffer.as_slice()))
    }
}

} // verus!
