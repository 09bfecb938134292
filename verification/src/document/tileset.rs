//! Tilesets and tile grids.

use vstd::prelude::*;

verus! {

/// A tileset attached to a sprite.
#[derive(Debug, PartialEq, Eq)]
pub struct TilesetRef {
    pub name: String,
    pub tile_width: u32,
    pub tile_height: u32,
    pub external_path: Option<String>,
}

/// What a tileset reference holds, as mathematical values.
#[verifier::ext_equal]
pub struct TilesetRefView {
    pub name: Seq<char>,
    pub tile_width: u32,
    pub tile_height: u32,
    pub external_path: Option<Seq<char>>,
}

impl View for TilesetRef {
    type V = TilesetRefView;

    open spec fn view(&self) -> TilesetRefView {
        TilesetRefView {
            name: self.name@,
            tile_width: self.tile_width,
            tile_height: self.tile_height,
            external_path: match self.external_path {
                Some(p) => Some(p@),
                None => None,
            },
        }
    }
}

/// The tile indices of a tilemap layer, row by row.
#[derive(Debug, PartialEq, Eq, Default)]
pub struct TilemapGrid {
    pub width: u32,
    pub height: u32,
    pub tiles: Vec<u32>,
}

/// What a tile grid holds, as mathematical values.
#[verifier::ext_equal]
pub struct TilemapGridView {
    pub width: u32,
    pub height: u32,
    pub tiles: Seq<u32>,
}

impl View for TilemapGrid {
    type V = TilemapGridView;

    open spec fn view(&self) -> TilemapGridView {
        TilemapGridView { width: self.width, height: self.height, tiles: self.tiles@ }
    }
}

impl TilemapGrid {
    /// A grid of `width * height` tiles (saturating at `usize::MAX`), all tile 0.
    pub fn new(width: u32, height: u32) -> (g: TilemapGrid)
        ensures
            g@ == (TilemapGridView {
                width,
                height,
                tiles: Seq::new(crate::document::pixels::pixel_count(width, height) as nat, |i: int| 0u32),
            }),
    {
        let count: usize = match (width as usize).checked_mul(height as usize) {
            Some(n) => n,
            None => usize::MAX,
        };
        let mut tiles: Vec<u32> = Vec::new();
        let mut i: usize = 0;
        while i < count
            invariant
                i <= count,
                tiles@ == Seq::new(i as nat, |k: int| 0u32),
            decreases count - i,
        {
            tiles.push(0);
            i = i + 1;
        }
        TilemapGrid { width, height, tiles }
    }
}

} // verus!
