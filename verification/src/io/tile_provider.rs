//! A source of tiles computed or held in memory rather than read from a
//! document.
use crate::error::Result;
use crate::tile::{Tile, TileIndex, TileLayout};
use vstd::prelude::*;

verus! {

/// Provides the tiles of one image on request.
pub trait TileProvider {
    /// The image's tile grid.
    fn layout(&self) -> TileLayout;

    /// The tile at `index`.
    fn provide_tile(&mut self, index: TileIndex) -> Result<Tile<'_>>;
}

} // verus!
