//! From a level to the tiles that are shown: for every tile that is not
//! empty, what to draw, where, and with which collider. Also the level that is
//! shown when no file was loaded.

use vstd::prelude::*;
use crate::collision::{collider_of, ColliderKind, TileCollisionMap};
use crate::constants::{EMPTY_TILE, TILE_SIZE_16};
use crate::level::{build_grid, world_of_grid, LevelData, LevelView};
use crate::placement::lemma_cell_index;
use crate::tileset::{TileIndex, TilesetInfo};

verus! {

/// One tile to bring into the world: the tile and its cell in the atlas, the
/// world coordinates of its centre, the tileset's texture and layout, its
/// collider, and whether it belongs to the editor.
#[derive(Clone, Copy, Debug, PartialEq, Eq, Structural)]
pub struct TileSpawn {
    pub tile: TileIndex,
    pub world_x: i64,
    pub world_y: i64,
    pub texture_handle: u64,
    pub layout_handle: u64,
    pub collider: Option<ColliderKind>,
    pub editor_tile: bool,
}

/// The tile `tile` at the world point `(world_x, world_y)`, drawn from
/// `info` and classified by the sets `solid` and `platform`.
pub open spec fn spawn_of(
    tile: u32,
    world_x: int,
    world_y: int,
    info: TilesetInfo,
    solid: Set<u32>,
    platform: Set<u32>,
    editor_tile: bool,
) -> TileSpawn {
    TileSpawn {
        tile: TileIndex::in_atlas(tile, info.tiles_per_row),
        world_x: world_x as i64,
        world_y: world_y as i64,
        texture_handle: info.texture_handle,
        layout_handle: info.layout_handle,
        collider: collider_of(solid, platform, tile),
        editor_tile,
    }
}

/// The tiles to bring into the world for the first `count` cells of a level,
/// the cells taken row by row from the top: one for each cell that is not
/// empty, at the world coordinates of the cell.
pub open spec fn level_spawns(
    level: LevelView,
    info: TilesetInfo,
    solid: Set<u32>,
    platform: Set<u32>,
    count: nat,
) -> Seq<TileSpawn>
    decreases count,
{
    if count == 0 {
        Seq::empty()
    } else {
        let rest = level_spawns(level, info, solid, platform, (count - 1) as nat);
        let gx = (count - 1) % level.width as int;
        let gy = (count - 1) / level.width as int;
        let tile = level.tile(gx, gy);
        if tile == EMPTY_TILE {
            rest
        } else {
            rest.push(
                spawn_of(
                    tile,
                    world_of_grid(gx, gy).0,
                    world_of_grid(gx, gy).1,
                    info,
                    solid,
                    platform,
                    false,
                ),
            )
        }
    }
}

/// The tile `tile_index` to bring into the world at `(world_x, world_y)`:
/// drawn from the atlas cell of the tile, with a full box as collider if the
/// tile is solid, a thin one if it is a platform, none otherwise.
pub fn spawn_tile_at_position(
    tile_index: u32,
    world_x: i64,
    world_y: i64,
    tileset_info: &TilesetInfo,
    collision_map: &TileCollisionMap,
) -> (spawn: TileSpawn)
    requires
        tileset_info.tiles_per_row > 0,
    ensures
        spawn == spawn_of(
            tile_index,
            world_x as int,
            world_y as int,
            *tileset_info,
            collision_map.solid_tiles@,
            collision_map.platform_tiles@,
            false,
        ),
{
    TileSpawn {
        tile: TileIndex::new(tile_index, tileset_info.tiles_per_row),
        world_x,
        world_y,
        texture_handle: tileset_info.texture_handle,
        layout_handle: tileset_info.layout_handle,
        collider: collision_map.collider_for(tile_index),
        editor_tile: false,
    }
}

/// The tiles to bring into the world for a level: one for each cell that is
/// not empty, row by row from the top, each at the world coordinates of its
/// cell.
pub fn spawn_level_tiles(level_data: &LevelData, tileset_info: &TilesetInfo, collision_map: &TileCollisionMap) -> (spawns:
    Vec<TileSpawn>)
    requires
        level_data.well_formed(),
        tileset_info.tiles_per_row > 0,
    ensures
        spawns@ == level_spawns(
            level_data@,
            *tileset_info,
            collision_map.solid_tiles@,
            collision_map.platform_tiles@,
            level_data@.width * level_data@.height,
        ),
{
    let ghost view = level_data@;
    let ghost solid = collision_map.solid_tiles@;
    let ghost platform = collision_map.platform_tiles@;
    let ghost w = level_data.width as int;
    let ghost h = level_data.height as int;
    let mut spawns: Vec<TileSpawn> = Vec::new();
    let mut y: u32 = 0;
    assert(w * 0 == 0) by (nonlinear_arith);
    while y < level_data.height
        invariant
            y <= level_data.height,
            level_data.well_formed(),
            tileset_info.tiles_per_row > 0,
            view == level_data@,
            solid == collision_map.solid_tiles@,
            platform == collision_map.platform_tiles@,
            w == level_data.width,
            h == level_data.height,
            0 <= w * y,
            spawns@ == level_spawns(view, *tileset_info, solid, platform, (w * y) as nat),
        decreases level_data.height - y,
    {
        let mut x: u32 = 0;
        while x < level_data.width
            invariant
                x <= level_data.width,
                y < level_data.height,
                level_data.well_formed(),
                tileset_info.tiles_per_row > 0,
                view == level_data@,
                solid == collision_map.solid_tiles@,
                platform == collision_map.platform_tiles@,
                w == level_data.width,
                h == level_data.height,
                0 <= w * y,
                spawns@ == level_spawns(view, *tileset_info, solid, platform, (w * y + x) as nat),
            decreases level_data.width - x,
        {
            let tile_index = level_data.tiles[y as usize][x as usize];
            proof {
                lemma_cell_index(w, h, x as int, y as int);
                assert(view.rows[y as int] == level_data.tiles@[y as int]@);
                assert(view.tile(x as int, y as int) == tile_index);
            }
            if tile_index != EMPTY_TILE {
                let world_x: i64 = x as i64 * TILE_SIZE_16;
                let world_y: i64 = -(y as i64 * TILE_SIZE_16);
                let spawn = spawn_tile_at_position(
                    tile_index,
                    world_x,
                    world_y,
                    tileset_info,
                    collision_map,
                );
                spawns.push(spawn);
            }
            x = x + 1;
        }
        proof {
            assert(w * (y + 1) == w * y + w) by (nonlinear_arith);
        }
        y = y + 1;
    }
    spawns
}

/// The tile at `(x, y)` of the default level: two rows of ground with a
/// lighter tile every five columns, a wall at each side, three platforms, and
/// a few decorations and bricks.
pub open spec fn default_level_cell(x: int, y: int) -> u32 {
    if y == 19 {
        16
    } else if y == 18 {
        if x % 5 == 0 {
            178
        } else {
            177
        }
    } else if 10 <= y < 18 && (x == 0 || x == 49) {
        18
    } else if y == 17 && x == 5 {
        8
    } else if y == 17 && x == 45 {
        24
    } else if y == 17 && x == 15 {
        20
    } else if y == 17 && x == 35 {
        21
    } else if y == 16 && x == 20 {
        40
    } else if y == 15 && 10 <= x < 15 {
        32
    } else if y == 12 && 25 <= x < 30 {
        33
    } else if y == 9 && 35 <= x < 40 {
        48
    } else {
        EMPTY_TILE
    }
}

/// The model of the default level: fifty by twenty tiles.
pub open spec fn default_level() -> LevelView {
    LevelView {
        width: 50,
        height: 20,
        rows: Seq::new(20, |y: int| Seq::new(50, |x: int| default_level_cell(x, y))),
    }
}

/// The level that is shown when no file was loaded.
pub fn create_default_level() -> (level: LevelData)
    ensures
        level@ == default_level(),
        level.well_formed(),
{
    let cell = |x: u32, y: u32| -> (tile: u32)
        ensures
            tile == default_level_cell(x as int, y as int),
        {
            if y == 19 {
                16
            } else if y == 18 {
                if x % 5 == 0 {
                    178
                } else {
                    177
                }
            } else if 10 <= y && y < 18 && (x == 0 || x == 49) {
                18
            } else if y == 17 && x == 5 {
                8
            } else if y == 17 && x == 45 {
                24
            } else if y == 17 && x == 15 {
                20
            } else if y == 17 && x == 35 {
                21
            } else if y == 16 && x == 20 {
                40
            } else if y == 15 && 10 <= x && x < 15 {
                32
            } else if y == 12 && 25 <= x && x < 30 {
                33
            } else if y == 9 && 35 <= x && x < 40 {
                48
            } else {
                EMPTY_TILE
            }
        };
    let tiles = build_grid(50, 20, cell, Ghost(|x: int, y: int| default_level_cell(x, y)));
    let level = LevelData { width: 50, height: 20, tiles };
    proof {
        let wanted = default_level();
        assert forall|y: int| 0 <= y < 20 implies level@.rows[y] == wanted.rows[y] by {
            assert(level@.rows[y] == level.tiles@[y]@);
            assert(level@.rows[y] =~= wanted.rows[y]);
        }
        assert(level@.rows =~= wanted.rows);
    }
    level
}

} // verus!
