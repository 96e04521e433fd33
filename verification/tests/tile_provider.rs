use ptiff_core::io::TileProvider;
use ptiff_core::tile::{Tile, TileExtent, TileId, TileIndex, TileLayout};
use ptiff_core::Result;

struct SimpleProvider<'a> {
    layout: TileLayout,
    bytes: &'a [u8],
    next_id: u64,
}

impl TileProvider for SimpleProvider<'_> {
    fn layout(&self) -> TileLayout {
        self.layout
    }

    fn provide_tile(&mut self, index: TileIndex) -> Result<Tile<'_>> {
        let region = self.layout.region_for(index)?;
        self.next_id += 1;
        Ok(Tile::new(TileId::new(self.next_id), index, region, self.bytes))
    }
}

#[test]
fn provider_serves_tiles_over_its_layout() {
    let layout = TileLayout::new(TileExtent::new(16, 16), 64, 32, 1);
    let bytes = vec![0x41u8; 256];
    let mut provider = SimpleProvider { layout, bytes: &bytes, next_id: 0 };
    let tile = provider.provide_tile(TileIndex::new(1, 1, 0)).unwrap();
    assert_eq!(tile.id().value(), 1);
    assert_eq!(tile.region().x, 16);
    assert_eq!(tile.region().y, 16);
    assert_eq!(tile.data_len(), 256);
    assert!(provider.provide_tile(TileIndex::new(99, 0, 0)).is_err());
    assert_eq!(provider.layout().image_width, 64);
}
