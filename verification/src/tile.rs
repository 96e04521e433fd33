//! Tiling grid types: tile extents, tile indices, tile regions and the tile
//! layout of a (possibly multi-level) image.
//!
//! Level `l` of an image halves each dimension `l` times (rounding down,
//! never below one pixel); each level is covered by a grid of tiles of the
//! layout's tile size, the last column and row possibly overhanging the
//! image edge.
use crate::error::{Error, ErrorCode, Result};
use vstd::prelude::*;

verus! {

/// Width and height of a tile (or of any pixel rectangle).
#[derive(Debug, Clone, Copy, PartialEq, Eq, Structural)]
pub struct TileExtent {
    /// Width in pixels.
    pub width: u32,
    /// Height in pixels.
    pub height: u32,
}

impl TileExtent {
    /// An extent of `width` x `height`.
    pub fn new(width: u32, height: u32) -> (e: Self)
        ensures
            e.width == width,
            e.height == height,
    {
        TileExtent { width, height }
    }
}

/// Position of a tile in the grid of one level.
#[derive(Debug, Clone, Copy, PartialEq, Eq, Structural)]
pub struct TileIndex {
    /// Tile column.
    pub column: u32,
    /// Tile row.
    pub row: u32,
    /// Pyramid level (0 is full resolution).
    pub level: u32,
}

impl TileIndex {
    /// The tile at (`column`, `row`) of `level`.
    pub fn new(column: u32, row: u32, level: u32) -> (i: Self)
        ensures
            i.column == column,
            i.row == row,
            i.level == level,
    {
        TileIndex { column, row, level }
    }
}

/// A pixel rectangle of a level: its top-left corner and extent.
#[derive(Debug, Clone, Copy, PartialEq, Eq, Structural)]
pub struct TileRegion {
    /// Left edge in pixels.
    pub x: u32,
    /// Top edge in pixels.
    pub y: u32,
    /// Width and height.
    pub extent: TileExtent,
}

impl TileRegion {
    /// The rectangle at (`x`, `y`) of size `extent`.
    pub fn new(x: u32, y: u32, extent: TileExtent) -> (r: Self)
        ensures
            r.x == x,
            r.y == y,
            r.extent == extent,
    {
        TileRegion { x, y, extent }
    }
}

/// The tile grid of an image: tile size, full-resolution size and number of
/// pyramid levels.
#[derive(Debug, Clone, Copy, PartialEq, Eq, Structural)]
pub struct TileLayout {
    /// Size of every tile.
    pub tile_size: TileExtent,
    /// Full-resolution image width in pixels.
    pub image_width: u32,
    /// Full-resolution image height in pixels.
    pub image_height: u32,
    /// Number of pyramid levels.
    pub level_count: u32,
}

/// `dim` halved (rounding down) `level` times.
pub open spec fn halved(dim: nat, level: nat) -> nat
    decreases level,
{
    if level == 0 {
        dim
    } else {
        halved(dim / 2, (level - 1) as nat)
    }
}

/// A dimension at pyramid level `level`: halved `level` times, at least 1.
pub open spec fn level_dim(dim: nat, level: nat) -> nat {
    let h = halved(dim, level);
    if h == 0 {
        1
    } else {
        h
    }
}

/// Number of tiles of size `tile` needed to cover `dim` pixels.
pub open spec fn tiles_across(dim: nat, tile: nat) -> nat
    recommends
        tile > 0,
{
    (dim + tile - 1) as nat / tile
}

/// Halving 0 or 1 any number of times stays at most 1.
proof fn lemma_halved_small(dim: nat, level: nat)
    requires
        dim <= 1,
    ensures
        halved(dim, level) <= 1,
    decreases level,
{
    if level > 0 {
        lemma_halved_small(dim / 2, (level - 1) as nat);
    }
}

/// Halving never grows a dimension.
proof fn lemma_halved_le(dim: nat, level: nat)
    ensures
        halved(dim, level) <= dim,
    decreases level,
{
    if level > 0 {
        lemma_halved_le(dim / 2, (level - 1) as nat);
    }
}

/// A full-resolution dimension reduced to pyramid level `level`.
fn level_dimension(dim: u32, level: u32) -> (r: u32)
    ensures
        r == level_dim(dim as nat, level as nat),
{
    let mut d = dim;
    let mut l: u32 = 0;
    while l < level && d > 1
        invariant
            l <= level,
            halved(dim as nat, level as nat) == halved(d as nat, (level - l) as nat),
        decreases level - l,
    {
        d = d / 2;
        l = l + 1;
    }
    proof {
        if l < level {
            lemma_halved_small(d as nat, (level - l) as nat);
        }
    }
    if l < level {
        1
    } else if d == 0 {
        1
    } else {
        d
    }
}

impl TileLayout {
    /// The layout with tiles of `tile_size` over an image of `image_width` x
    /// `image_height` pixels with `level_count` pyramid levels.
    pub fn new(tile_size: TileExtent, image_width: u32, image_height: u32, level_count: u32) -> (l: Self)
        ensures
            l.tile_size == tile_size,
            l.image_width == image_width,
            l.image_height == image_height,
            l.level_count == level_count,
    {
        TileLayout { tile_size, image_width, image_height, level_count }
    }

    /// Width in pixels of `level`.
    pub fn level_width(&self, level: u32) -> (w: u32)
        ensures
            w == level_dim(self.image_width as nat, level as nat),
    {
        level_dimension(self.image_width, level)
    }

    /// Height in pixels of `level`.
    pub fn level_height(&self, level: u32) -> (h: u32)
        ensures
            h == level_dim(self.image_height as nat, level as nat),
    {
        level_dimension(self.image_height, level)
    }

    /// Number of tile columns covering `level`.
    pub fn columns(&self, level: u32) -> (c: u32)
        requires
            self.tile_size.width > 0,
        ensures
            c == tiles_across(level_dim(self.image_width as nat, level as nat), self.tile_size.width as nat),
    {
        let w = self.level_width(level) as u64;
        let t = self.tile_size.width as u64;
        let c = (w + t - 1) / t;
        assert(c <= w) by (nonlinear_arith)
            requires
                c == (w + t - 1) as int / t as int,
                t >= 1,
                w >= 1,
        ;
        c as u32
    }

    /// Number of tile rows covering `level`.
    pub fn rows(&self, level: u32) -> (r: u32)
        requires
            self.tile_size.height > 0,
        ensures
            r == tiles_across(level_dim(self.image_height as nat, level as nat), self.tile_size.height as nat),
    {
        let h = self.level_height(level) as u64;
        let t = self.tile_size.height as u64;
        let r = (h + t - 1) / t;
        assert(r <= h) by (nonlinear_arith)
            requires
                r == (h + t - 1) as int / t as int,
                t >= 1,
                h >= 1,
        ;
        r as u32
    }

    /// Whether `index` names a tile of this layout.
    pub open spec fn holds(&self, index: TileIndex) -> bool {
        &&& index.level < self.level_count
        &&& index.column < tiles_across(
            level_dim(self.image_width as nat, index.level as nat),
            self.tile_size.width as nat,
        )
        &&& index.row < tiles_across(
            level_dim(self.image_height as nat, index.level as nat),
            self.tile_size.height as nat,
        )
    }

    /// The pixel rectangle of the tile at `index`: its grid corner and the
    /// tile size clipped to the level's edge; [`ErrorCode::OutOfRange`]
    /// exactly when the index lies outside the grid.
    pub fn region_for(&self, index: TileIndex) -> (r: Result<TileRegion>)
        requires
            self.tile_size.width > 0,
            self.tile_size.height > 0,
        ensures
            r is Ok <==> self.holds(index),
            r matches Err(e) ==> e.kind() == ErrorCode::OutOfRange,
            r matches Ok(region) ==> {
                let lw = level_dim(self.image_width as nat, index.level as nat);
                let lh = level_dim(self.image_height as nat, index.level as nat);
                let x = index.column * self.tile_size.width;
                let y = index.row * self.tile_size.height;
                &&& region.x == x
                &&& region.y == y
                &&& region.extent.width == if x + self.tile_size.width <= lw {
                    self.tile_size.width as int
                } else {
                    lw - x
                }
                &&& region.extent.height == if y + self.tile_size.height <= lh {
                    self.tile_size.height as int
                } else {
                    lh - y
                }
            },
    {
        if index.level >= self.level_count {
            return Err(Error::out_of_range("TileLayout::region_for: level out of range"));
        }
        let columns = self.columns(index.level);
        let rows = self.rows(index.level);
        if index.column >= columns || index.row >= rows {
            return Err(Error::out_of_range("TileLayout::region_for: tile index out of range"));
        }
        let lw = self.level_width(index.level) as u64;
        let lh = self.level_height(index.level) as u64;
        let tw = self.tile_size.width as u64;
        let th = self.tile_size.height as u64;
        let col = index.column as u64;
        let row = index.row as u64;
        proof {
            assert(col * tw < lw) by (nonlinear_arith)
                requires
                    col < (lw + tw - 1) as int / tw as int,
                    tw >= 1,
            ;
            assert(row * th < lh) by (nonlinear_arith)
                requires
                    row < (lh + th - 1) as int / th as int,
                    th >= 1,
            ;
        }
        let x = col * tw;
        let y = row * th;
        let w = if x + tw <= lw { tw } else { lw - x };
        let h = if y + th <= lh { th } else { lh - y };
        Ok(TileRegion::new(x as u32, y as u32, TileExtent::new(w as u32, h as u32)))
    }
}

/// An opaque tile identifier.
#[derive(Debug, Clone, Copy, PartialEq, Eq, Structural)]
pub struct TileId {
    value: u64,
}

impl TileId {
    /// The identifier with value `value`.
    pub fn new(value: u64) -> (t: Self)
        ensures
            t.id_value() == value,
    {
        TileId { value }
    }

    /// The identifier's value, for contracts.
    pub closed spec fn id_value(self) -> u64 {
        self.value
    }

    /// The identifier's value.
    pub fn value(&self) -> (v: u64)
        ensures
            v == self.id_value(),
    {
        self.value
    }
}

/// One tile's pixel bytes, borrowed, with its identifier, grid index and
/// pixel region.
#[derive(Debug, Clone, Copy)]
pub struct Tile<'a> {
    id: TileId,
    index: TileIndex,
    region: TileRegion,
    data: &'a [u8],
}

impl<'a> Tile<'a> {
    /// A tile over `data`.
    pub fn new(id: TileId, index: TileIndex, region: TileRegion, data: &'a [u8]) -> (t: Self)
        ensures
            t.tile_id() == id,
            t.tile_index() == index,
            t.tile_region() == region,
            t.bytes() == data@,
    {
        Tile { id, index, region, data }
    }

    /// The identifier, for contracts.
    pub closed spec fn tile_id(self) -> TileId {
        self.id
    }

    /// The grid index, for contracts.
    pub closed spec fn tile_index(self) -> TileIndex {
        self.index
    }

    /// The pixel region, for contracts.
    pub closed spec fn tile_region(self) -> TileRegion {
        self.region
    }

    /// The pixel bytes, for contracts.
    pub closed spec fn bytes(self) -> Seq<u8> {
        self.data@
    }

    /// The identifier.
    pub fn id(&self) -> (t: TileId)
        ensures
            t == self.tile_id(),
    {
        self.id
    }

    /// The grid index.
    pub fn index(&self) -> (i: TileIndex)
        ensures
            i == self.tile_index(),
    {
        self.index
    }

    /// The pixel region.
    pub fn region(&self) -> (r: TileRegion)
        ensures
            r == self.tile_region(),
    {
        self.region
    }

    /// The pixel bytes.
    pub fn data(&self) -> (d: &'a [u8])
        ensures
            d@ == self.bytes(),
    {
        self.data
    }

    /// The number of pixel bytes.
    pub fn data_len(&self) -> (n: usize)
        ensures
            n == self.bytes().len(),
    {
        self.data.len()
    }
}

} // verus!
