//! Tile-level write access to one image.
use crate::error::Result;
use crate::tile::{Tile, TileLayout};
use vstd::prelude::*;

verus! {

/// Writes the tiles of one image, whatever the storage format.
pub trait ImageSink {
    /// The image's tile grid.
    fn layout(&self) -> TileLayout;

    /// Writes one tile.
    fn write_tile(&mut self, tile: &Tile) -> Result<()>;
}

} // verus!
