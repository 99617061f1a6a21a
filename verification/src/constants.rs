//! Tunable constants of the tile and level systems.

use vstd::prelude::*;

verus! {

/// Frames per second of the idle animation.
pub const IDLE_ANIMATION_FPS: u8 = 5;

/// Frames per second of the run animation.
pub const RUN_ANIMATION_FPS: u8 = 10;

/// Edge of one character sprite, in pixels.
pub const SPRITE_SIZE: u32 = 96;

/// Number of frames in the idle animation.
pub const IDLE_FRAMES: u32 = 10;

/// Number of frames in the run animation.
pub const RUN_FRAMES: u32 = 6;

/// Width of the scrolling tile map, in tiles.
pub const TILEMAP_WIDTH: u32 = 50;

/// Height of the scrolling tile map, in tiles.
pub const TILEMAP_HEIGHT: u32 = 20;

/// Edge of one level tile, in world units.
pub const TILE_SIZE_16: i64 = 16;

/// Edge of one tile in the tileset image, in pixels.
pub const TILESET_TILE_SIZE: u32 = 16;

/// Width of the tileset image, in pixels.
pub const TILESET_WIDTH: u32 = 256;

/// Height of the tileset image, in pixels.
pub const TILESET_HEIGHT: u32 = 256;

/// Number of tiles in one row of the tileset.
pub const TILES_PER_ROW: u32 = 16;

/// Number of tiles in one column of the tileset.
pub const TILES_PER_COLUMN: u32 = 16;

/// Largest width of a level made by `LevelData::new`.
pub const MAX_LEVEL_WIDTH: u32 = 200;

/// Largest height of a level made by `LevelData::new`.
pub const MAX_LEVEL_HEIGHT: u32 = 50;

/// Width of a level when none is asked for.
pub const DEFAULT_LEVEL_WIDTH: u32 = 100;

/// Height of a level when none is asked for.
pub const DEFAULT_LEVEL_HEIGHT: u32 = 30;

/// The tile id that stands for "no tile": never drawn, never collided with.
pub const EMPTY_TILE: u32 = 255;

} // verus!
