//! Writes the tiles of one in-memory image at fixed linear byte offsets.
use crate::error::{Error, ErrorCode, Result};
use crate::io::binary_writer::{overwrite_at, BinaryWriter};
use crate::tile::{Tile, TileIndex, TileLayout};
use vstd::prelude::*;

use super::memory_layout::MemoryImageInfo;
use super::tiff::image_sink::linear_tile;

verus! {

/// Where tile `index` of an image with layout and tile size `info`, whose
/// pixels start at `start`, lies: its row-major position times the tile
/// size past the start.
pub open spec fn memory_tile_offset(info: MemoryImageInfo, start: u64, index: TileIndex) -> int {
    start + linear_tile(info.layout, index.column, index.row, index.level) * info.tile_bytes
}

/// Writes the tiles of one image through a writer, each at its linear
/// offset past the image's first pixel byte.
pub struct MemoryImageSink<W> {
    writer: W,
    info: MemoryImageInfo,
    image_pixel_start: u64,
}

impl<W: BinaryWriter> MemoryImageSink<W> {
    /// The writer.
    pub closed spec fn sink_writer(&self) -> W {
        self.writer
    }

    /// The image's layout and sizes.
    pub closed spec fn sink_info(&self) -> MemoryImageInfo {
        self.info
    }

    /// The absolute offset of the image's first pixel byte.
    pub closed spec fn pixel_start(&self) -> u64 {
        self.image_pixel_start
    }

    /// A sink over `writer` for the image `info` whose pixels start at
    /// `image_pixel_start`.
    pub fn new(writer: W, info: MemoryImageInfo, image_pixel_start: u64) -> (s: Self)
        ensures
            s.sink_writer() == writer,
            s.sink_info() == info,
            s.pixel_start() == image_pixel_start,
    {
        MemoryImageSink { writer, info, image_pixel_start }
    }

    /// The image's tile grid.
    pub fn layout(&self) -> (l: TileLayout)
        ensures
            l == self.sink_info().layout,
    {
        self.info.layout
    }

    /// The writer, handed back.
    pub fn into_writer(self) -> (w: W)
        ensures
            w == self.sink_writer(),
    {
        self.writer
    }

    /// Writes one tile at [`memory_tile_offset`]. An index outside the grid
    /// fails with [`ErrorCode::OutOfRange`]; tile bytes other than the
    /// layout's tile size, a zero tile size or an offset past `u64` fail
    /// with [`ErrorCode::InvalidArgument`], all without writing. On a
    /// reliable writer the write succeeds when the offset lies within the
    /// output.
    pub fn write_tile(&mut self, tile: &Tile) -> (r: Result<()>)
        requires
            old(self).sink_info().layout.tile_size.width > 0,
            old(self).sink_info().layout.tile_size.height > 0,
        ensures
            final(self).sink_info() == old(self).sink_info(),
            final(self).pixel_start() == old(self).pixel_start(),
            final(self).sink_writer().reliable() == old(self).sink_writer().reliable(),
            ({
                let info = old(self).sink_info();
                let index = tile.tile_index();
                let offset = memory_tile_offset(info, old(self).pixel_start(), index);
                let old_bytes = old(self).sink_writer().bytes();
                let valid = info.layout.holds(index) && tile.bytes().len() == info.tile_bytes && info.tile_bytes > 0 && offset <= u64::MAX;
                &&& !info.layout.holds(index) ==> (r matches Err(e) && e.kind() == ErrorCode::OutOfRange && *final(self) == *old(self))
                &&& info.layout.holds(index) && !valid ==> (r matches Err(e) && e.kind() == ErrorCode::InvalidArgument && *final(self) == *old(self))
                &&& valid && old(self).sink_writer().reliable() && offset <= old_bytes.len() && offset + tile.bytes().len() <= usize::MAX ==> r is Ok
                &&& r is Ok ==> valid && final(self).sink_writer().bytes() == overwrite_at(old_bytes, offset as nat, tile.bytes())
            }),
    {
        let index = tile.index();
        let _region = self.info.layout.region_for(index)?;
        let columns = self.info.layout.columns(index.level);
        assert(index.row as u64 * columns as u64 <= 0xFFFF_FFFE_0000_0001u64) by (nonlinear_arith)
            requires
                index.row <= u32::MAX,
                columns <= u32::MAX,
        ;
        let linear_index = index.row as u64 * columns as u64 + index.column as u64;
        let data = tile.data();
        if data.len() as u64 != self.info.tile_bytes {
            return Err(Error::invalid_argument("MemoryImageSink::writeTile: tile byte count does not match the layout"));
        }
        if self.info.tile_bytes == 0 {
            return Err(Error::invalid_argument("MemoryImageSink::writeTile: zero tile size"));
        }
        let tile_offset = match linear_index.checked_mul(self.info.tile_bytes) {
            Some(v) => v,
            None => {
                return Err(Error::invalid_argument("MemoryImageSink::writeTile: tile offset computation overflows"));
            },
        };
        let absolute_offset = match self.image_pixel_start.checked_add(tile_offset) {
            Some(v) => v,
            None => {
                return Err(Error::invalid_argument("MemoryImageSink::writeTile: absolute tile offset overflows"));
            },
        };
        self.writer.seek(absolute_offset)?;
        let n = self.writer.write(data)?;
        if n != data.len() {
            return Err(Error::invalid_argument("MemoryImageSink::writeTile: short write"));
        }
        assert(data@.subrange(0, n as int) =~= data@);
        Ok(())
    }
}

} // verus!
