//! Tilesets: the description of a tile atlas, the cell of the atlas that a
//! tile is drawn from, and the registry of tilesets with its active one.

use vstd::prelude::*;

verus! {

/// A tileset: a texture cut into a grid of square tiles. `texture_handle` and
/// `layout_handle` are the numbers under which the application keeps the
/// texture and the atlas layout.
#[derive(Clone, Copy, Debug, PartialEq, Eq, Structural)]
pub struct TilesetInfo {
    pub tile_size: u32,
    pub tiles_per_row: u32,
    pub tiles_per_column: u32,
    pub texture_handle: u64,
    pub layout_handle: u64,
}

/// A tile with the cell of the atlas that it is drawn from.
#[derive(Clone, Copy, Debug, PartialEq, Eq, Structural)]
pub struct TileIndex {
    pub index: u32,
    pub tileset_x: u32,
    pub tileset_y: u32,
}

impl TileIndex {
    /// The tile `index` in an atlas with `tiles_per_row` tiles in a row:
    /// tiles are numbered row by row, so the tile's column is the remainder
    /// and its row the quotient of `index` by `tiles_per_row`.
    pub open spec fn in_atlas(index: u32, tiles_per_row: u32) -> TileIndex {
        TileIndex {
            index,
            tileset_x: (index % tiles_per_row) as u32,
            tileset_y: (index / tiles_per_row) as u32,
        }
    }

    /// The tile `index` with its cell in an atlas of `tiles_per_row` tiles in
    /// a row.
    pub fn new(index: u32, tiles_per_row: u32) -> (tile: TileIndex)
        requires
            tiles_per_row > 0,
        ensures
            tile == TileIndex::in_atlas(index, tiles_per_row),
    {
        TileIndex { index, tileset_x: index % tiles_per_row, tileset_y: index / tiles_per_row }
    }
}

/// The tilesets that were registered, in order, and the number of the one
/// that is active.
#[derive(Debug)]
pub struct TilesetRegistry {
    pub tilesets: Vec<TilesetInfo>,
    pub current_tileset: usize,
}

impl TilesetRegistry {
    /// Whether the active tileset is one of the registered ones, or none is
    /// registered yet and the number is zero.
    pub open spec fn well_formed(&self) -> bool {
        self.current_tileset < self.tilesets@.len() || (self.tilesets@.len() == 0
            && self.current_tileset == 0)
    }

    /// A registry without tilesets.
    pub fn new() -> (registry: TilesetRegistry)
        ensures
            registry.tilesets@.len() == 0,
            registry.current_tileset == 0,
            registry.well_formed(),
    {
        TilesetRegistry { tilesets: Vec::new(), current_tileset: 0 }
    }

    /// Registers a tileset after the ones that are there, and tells its
    /// number. The active tileset stays the same; the first tileset that is
    /// registered is active from the start.
    pub fn register(&mut self, info: TilesetInfo) -> (number: usize)
        requires
            old(self).well_formed(),
        ensures
            number == old(self).tilesets@.len(),
            final(self).tilesets@ == old(self).tilesets@.push(info),
            final(self).current_tileset == old(self).current_tileset,
            final(self).well_formed(),
    {
        let number = self.tilesets.len();
        self.tilesets.push(info);
        number
    }

    /// Makes the tileset with the given number the active one. A number that
    /// no tileset has changes nothing and is answered with `false`.
    pub fn set_current(&mut self, number: usize) -> (done: bool)
        requires
            old(self).well_formed(),
        ensures
            done == (number < old(self).tilesets@.len()),
            final(self).tilesets@ == old(self).tilesets@,
            final(self).current_tileset == if done {
                number
            } else {
                old(self).current_tileset
            },
            final(self).well_formed(),
    {
        if number < self.tilesets.len() {
            self.current_tileset = number;
            true
        } else {
            false
        }
    }

    /// The active tileset, if any tileset is registered.
    pub fn current(&self) -> (info: Option<TilesetInfo>)
        ensures
            info == if self.current_tileset < self.tilesets@.len() {
                Some(self.tilesets@[self.current_tileset as int])
            } else {
                None
            },
    {
        if self.current_tileset < self.tilesets.len() {
            Some(self.tilesets[self.current_tileset])
        } else {
            None
        }
    }
}

} // verus!
