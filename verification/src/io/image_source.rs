//! Tile-level read access to one image.
use crate::error::Result;
use crate::tile::{Tile, TileIndex, TileLayout};
use vstd::prelude::*;

verus! {

/// Reads the tiles of one image, whatever the storage format.
pub trait ImageSource {
    /// The image's tile grid.
    fn layout(&self) -> TileLayout;

    /// Reads the tile at `index`.
    fn read_tile(&mut self, index: TileIndex) -> Result<Tile<'_>>;
}

} // verus!
