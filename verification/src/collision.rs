//! Tile classification: which tiles are solid, which are platforms, and the
//! collider that each kind of tile gets. No tile is both solid and platform.

use std::collections::HashSet;
use vstd::prelude::*;
use vstd::std_specs::hash::group_hash_axioms;
use crate::constants::{EMPTY_TILE, TILE_SIZE_16};
use crate::error::LevelError;

verus! {

broadcast use group_hash_axioms;

// ---------------------------------------------------------------------------
// The usual tiles, by kind
// ---------------------------------------------------------------------------

/// Grass, the first of the solid terrain tiles.
pub const GRASS_TILES: [u32; 4] = [177, 178, 179, 180];

/// Stone.
pub const STONE_TILES: [u32; 4] = [16, 17, 18, 19];

/// Brick.
pub const BRICK_TILES: [u32; 4] = [20, 21, 22, 23];

/// Rock.
pub const ROCK_TILES: [u32; 4] = [4, 5, 6, 7];

/// Wooden platforms.
pub const WOOD_PLATFORMS: [u32; 4] = [32, 33, 34, 35];

/// Stone platforms.
pub const STONE_PLATFORMS: [u32; 4] = [48, 49, 50, 51];

/// Metal platforms.
pub const METAL_PLATFORMS: [u32; 4] = [64, 65, 66, 67];

/// Flowers, the first of the decorations.
pub const FLOWERS: [u32; 4] = [8, 9, 10, 11];

/// Trees.
pub const TREES: [u32; 4] = [24, 25, 26, 27];

/// Crystals.
pub const CRYSTALS: [u32; 4] = [40, 41, 42, 43];

/// Spikes: solid, and harmful.
pub const SPIKES: [u32; 2] = [80, 81];

/// Water.
pub const WATER: [u32; 4] = [96, 97, 98, 99];

/// Lava.
pub const LAVA: [u32; 4] = [112, 113, 114, 115];

/// Whether `tile` is one of `count` tiles in a row that begin with `first`.
pub open spec fn in_run(tile: u32, first: u32, count: u32) -> bool {
    first <= tile < first + count
}

/// Whether a tile is solid by the usual classification: grass, stone, brick,
/// rock or spikes.
pub open spec fn is_solid_id(tile: u32) -> bool {
    in_run(tile, 177, 4) || in_run(tile, 16, 4) || in_run(tile, 20, 4) || in_run(tile, 4, 4)
        || in_run(tile, 80, 2)
}

/// Whether a tile is a platform by the usual classification: a wooden, stone
/// or metal platform.
pub open spec fn is_platform_id(tile: u32) -> bool {
    in_run(tile, 32, 4) || in_run(tile, 48, 4) || in_run(tile, 64, 4)
}

/// The solid tiles of the usual classification.
pub open spec fn solid_ids() -> Set<u32> {
    Set::new(|tile: u32| is_solid_id(tile))
}

/// The platforms of the usual classification.
pub open spec fn platform_ids() -> Set<u32> {
    Set::new(|tile: u32| is_platform_id(tile))
}

/// Whether a tile is a decoration by the usual classification: a flower, a
/// tree or a crystal.
pub open spec fn is_decorative_id(tile: u32) -> bool {
    in_run(tile, 8, 4) || in_run(tile, 24, 4) || in_run(tile, 40, 4)
}

/// The name of a tile's kind by the usual classification.
pub open spec fn tile_type_name(tile: u32) -> Seq<char> {
    if in_run(tile, 177, 4) {
        "Grass"@
    } else if in_run(tile, 16, 4) {
        "Stone"@
    } else if in_run(tile, 20, 4) {
        "Brick"@
    } else if in_run(tile, 4, 4) {
        "Rock"@
    } else if in_run(tile, 32, 4) {
        "Wood Platform"@
    } else if in_run(tile, 48, 4) {
        "Stone Platform"@
    } else if in_run(tile, 64, 4) {
        "Metal Platform"@
    } else if in_run(tile, 8, 4) {
        "Flower"@
    } else if in_run(tile, 24, 4) {
        "Tree"@
    } else if in_run(tile, 40, 4) {
        "Crystal"@
    } else if in_run(tile, 80, 2) {
        "Spikes"@
    } else if in_run(tile, 96, 4) {
        "Water"@
    } else if in_run(tile, 112, 4) {
        "Lava"@
    } else if tile == EMPTY_TILE {
        "Empty"@
    } else {
        "Unknown"@
    }
}

/// Whether `tile` is one of `tiles`.
fn is_among(tile: u32, tiles: &[u32]) -> (found: bool)
    ensures
        found == tiles@.contains(tile),
{
    let mut i: usize = 0;
    while i < tiles.len()
        invariant
            i <= tiles@.len(),
            forall|k: int| 0 <= k < i ==> #[trigger] tiles@[k] != tile,
        decreases tiles@.len() - i,
    {
        if tiles[i] == tile {
            return true;
        }
        i = i + 1;
    }
    false
}

/// The tiles of the lists above are runs of consecutive numbers.
proof fn lemma_tile_runs(tile: u32)
    ensures
        GRASS_TILES@.contains(tile) == in_run(tile, 177, 4),
        STONE_TILES@.contains(tile) == in_run(tile, 16, 4),
        BRICK_TILES@.contains(tile) == in_run(tile, 20, 4),
        ROCK_TILES@.contains(tile) == in_run(tile, 4, 4),
        WOOD_PLATFORMS@.contains(tile) == in_run(tile, 32, 4),
        STONE_PLATFORMS@.contains(tile) == in_run(tile, 48, 4),
        METAL_PLATFORMS@.contains(tile) == in_run(tile, 64, 4),
        FLOWERS@.contains(tile) == in_run(tile, 8, 4),
        TREES@.contains(tile) == in_run(tile, 24, 4),
        CRYSTALS@.contains(tile) == in_run(tile, 40, 4),
        SPIKES@.contains(tile) == in_run(tile, 80, 2),
        WATER@.contains(tile) == in_run(tile, 96, 4),
        LAVA@.contains(tile) == in_run(tile, 112, 4),
{
    lemma_run_of_four(GRASS_TILES@, 177, tile);
    lemma_run_of_four(STONE_TILES@, 16, tile);
    lemma_run_of_four(BRICK_TILES@, 20, tile);
    lemma_run_of_four(ROCK_TILES@, 4, tile);
    lemma_run_of_four(WOOD_PLATFORMS@, 32, tile);
    lemma_run_of_four(STONE_PLATFORMS@, 48, tile);
    lemma_run_of_four(METAL_PLATFORMS@, 64, tile);
    lemma_run_of_four(FLOWERS@, 8, tile);
    lemma_run_of_four(TREES@, 24, tile);
    lemma_run_of_four(CRYSTALS@, 40, tile);
    lemma_run_of_four(WATER@, 96, tile);
    lemma_run_of_four(LAVA@, 112, tile);
    let spikes = SPIKES@;
    assert(spikes[0] == 80 && spikes[1] == 81);
}

/// A list of four consecutive numbers holds exactly the run that they form.
proof fn lemma_run_of_four(tiles: Seq<u32>, first: u32, tile: u32)
    requires
        tiles.len() == 4,
        first < 1000,
        tiles[0] == first,
        tiles[1] == first + 1,
        tiles[2] == first + 2,
        tiles[3] == first + 3,
    ensures
        tiles.contains(tile) == in_run(tile, first, 4),
{
    if in_run(tile, first, 4) {
        assert(tiles[tile - first] == tile);
    }
}

/// Whether a tile is solid by the usual classification.
pub fn is_solid_tile(tile_index: u32) -> (solid: bool)
    ensures
        solid == is_solid_id(tile_index),
{
    proof {
        lemma_tile_runs(tile_index);
    }
    is_among(tile_index, &GRASS_TILES) || is_among(tile_index, &STONE_TILES) || is_among(
        tile_index,
        &BRICK_TILES,
    ) || is_among(tile_index, &ROCK_TILES) || is_among(tile_index, &SPIKES)
}

/// Whether a tile is a platform by the usual classification.
pub fn is_platform_tile(tile_index: u32) -> (platform: bool)
    ensures
        platform == is_platform_id(tile_index),
{
    proof {
        lemma_tile_runs(tile_index);
    }
    is_among(tile_index, &WOOD_PLATFORMS) || is_among(tile_index, &STONE_PLATFORMS) || is_among(
        tile_index,
        &METAL_PLATFORMS,
    )
}

/// Whether a tile is a decoration by the usual classification.
pub fn is_decorative_tile(tile_index: u32) -> (decorative: bool)
    ensures
        decorative == is_decorative_id(tile_index),
{
    proof {
        lemma_tile_runs(tile_index);
    }
    is_among(tile_index, &FLOWERS) || is_among(tile_index, &TREES) || is_among(tile_index, &CRYSTALS)
}

/// The name of a tile's kind by the usual classification.
pub fn get_tile_type_name(tile_index: u32) -> (name: &'static str)
    ensures
        name@ == tile_type_name(tile_index),
{
    proof {
        lemma_tile_runs(tile_index);
    }
    if is_among(tile_index, &GRASS_TILES) {
        "Grass"
    } else if is_among(tile_index, &STONE_TILES) {
        "Stone"
    } else if is_among(tile_index, &BRICK_TILES) {
        "Brick"
    } else if is_among(tile_index, &ROCK_TILES) {
        "Rock"
    } else if is_among(tile_index, &WOOD_PLATFORMS) {
        "Wood Platform"
    } else if is_among(tile_index, &STONE_PLATFORMS) {
        "Stone Platform"
    } else if is_among(tile_index, &METAL_PLATFORMS) {
        "Metal Platform"
    } else if is_among(tile_index, &FLOWERS) {
        "Flower"
    } else if is_among(tile_index, &TREES) {
        "Tree"
    } else if is_among(tile_index, &CRYSTALS) {
        "Crystal"
    } else if is_among(tile_index, &SPIKES) {
        "Spikes"
    } else if is_among(tile_index, &WATER) {
        "Water"
    } else if is_among(tile_index, &LAVA) {
        "Lava"
    } else if tile_index == EMPTY_TILE {
        "Empty"
    } else {
        "Unknown"
    }
}

// ---------------------------------------------------------------------------
// Colliders
// ---------------------------------------------------------------------------

/// The collider of a tile.
#[derive(Clone, Copy, Debug, PartialEq, Eq, Structural)]
pub enum ColliderKind {
    /// A box over the whole cell.
    Solid,
    /// A thin box that can be jumped through from below.
    Platform,
}

impl ColliderKind {
    /// The collider box's half width and half height, in world units.
    pub open spec fn half_extents_of(self) -> (i64, i64) {
        match self {
            ColliderKind::Solid => (8, 8),
            ColliderKind::Platform => (8, 4),
        }
    }

    /// The collider box's half width and half height, in world units: half a
    /// tile each way for a solid tile, half a tile by a quarter of a tile for
    /// a platform.
    pub fn half_extents(&self) -> (extents: (i64, i64))
        ensures
            extents == self.half_extents_of(),
    {
        match self {
            ColliderKind::Solid => (TILE_SIZE_16 / 2, TILE_SIZE_16 / 2),
            ColliderKind::Platform => (TILE_SIZE_16 / 2, TILE_SIZE_16 / 4),
        }
    }
}

/// The classification of tiles: the solid ones and the platforms.
#[derive(Debug)]
pub struct TileCollisionMap {
    pub solid_tiles: HashSet<u32>,
    pub platform_tiles: HashSet<u32>,
}

/// The collider of `tile` when `solid` and `platform` classify the tiles: no
/// collider for the empty tile or a tile in neither set.
pub open spec fn collider_of(solid: Set<u32>, platform: Set<u32>, tile: u32) -> Option<ColliderKind> {
    if solid.contains(tile) {
        Some(ColliderKind::Solid)
    } else if platform.contains(tile) {
        Some(ColliderKind::Platform)
    } else {
        None
    }
}

/// The position of the first of `tiles` that is in `set`, or the number of
/// `tiles` when none is.
pub open spec fn first_member(tiles: Seq<u32>, set: Set<u32>) -> int
    decreases tiles.len(),
{
    if tiles.len() == 0 || set.contains(tiles[0]) {
        0
    } else {
        1 + first_member(tiles.drop_first(), set)
    }
}

/// `first_member` finds exactly the first tile that is in the set.
proof fn lemma_first_member(tiles: Seq<u32>, set: Set<u32>, k: int)
    requires
        0 <= k <= tiles.len(),
        forall|i: int| 0 <= i < k ==> !set.contains(#[trigger] tiles[i]),
        k < tiles.len() ==> set.contains(tiles[k]),
    ensures
        first_member(tiles, set) == k,
    decreases k,
{
    if k > 0 {
        let rest = tiles.drop_first();
        assert(!set.contains(tiles[0]));
        assert forall|i: int| 0 <= i < k - 1 implies !set.contains(#[trigger] rest[i]) by {
            assert(rest[i] == tiles[i + 1]);
        }
        lemma_first_member(rest, set, k - 1);
    }
}

impl TileCollisionMap {
    /// Whether no tile is both solid and platform.
    pub open spec fn well_formed(&self) -> bool {
        self.solid_tiles@.disjoint(self.platform_tiles@)
    }

    /// The collider of `tile` by this classification.
    pub open spec fn collider(&self, tile: u32) -> Option<ColliderKind> {
        collider_of(self.solid_tiles@, self.platform_tiles@, tile)
    }

    /// The classification with the given solid tiles and platforms. A tile
    /// that is in both lists is a conflict: the first such tile of `platform`
    /// is reported, and no classification is made.
    pub fn new(solid: &[u32], platform: &[u32]) -> (made: Result<TileCollisionMap, LevelError>)
        ensures
            match made {
                Ok(map) => {
                    &&& map.solid_tiles@ == solid@.to_set()
                    &&& map.platform_tiles@ == platform@.to_set()
                    &&& map.well_formed()
                    &&& first_member(platform@, solid@.to_set()) == platform@.len()
                },
                Err(e) => {
                    let k = first_member(platform@, solid@.to_set());
                    k < platform@.len() && e == (LevelError::ClassificationConflict { tile_id: platform@[k] })
                },
            },
    {
        let mut solid_tiles: HashSet<u32> = HashSet::new();
        let mut i: usize = 0;
        assert(solid@.take(0).to_set() =~= Set::<u32>::empty());
        while i < solid.len()
            invariant
                i <= solid@.len(),
                solid_tiles@ == solid@.take(i as int).to_set(),
            decreases solid@.len() - i,
        {
            solid_tiles.insert(solid[i]);
            proof {
                let before = solid@.take(i as int);
                let after = solid@.take(i + 1);
                assert(after =~= before.push(solid@[i as int]));
                assert forall|t: u32| after.to_set().contains(t) == before.to_set().insert(
                    solid@[i as int],
                ).contains(t) by {
                    if before.contains(t) {
                        let k = choose|k: int| 0 <= k < before.len() && before[k] == t;
                        assert(after[k] == t);
                    }
                    if after.contains(t) {
                        let k = choose|k: int| 0 <= k < after.len() && after[k] == t;
                        if k < before.len() {
                            assert(before[k] == t);
                        }
                    }
                    if t == solid@[i as int] {
                        assert(after[i as int] == t);
                    }
                }
                assert(after.to_set() =~= before.to_set().insert(solid@[i as int]));
            }
            i = i + 1;
        }
        assert(solid@.take(solid@.len() as int) =~= solid@);
        let mut platform_tiles: HashSet<u32> = HashSet::new();
        let mut k: usize = 0;
        assert(platform@.take(0).to_set() =~= Set::<u32>::empty());
        while k < platform.len()
            invariant
                k <= platform@.len(),
                solid_tiles@ == solid@.to_set(),
                platform_tiles@ == platform@.take(k as int).to_set(),
                forall|j: int| 0 <= j < k ==> !solid_tiles@.contains(#[trigger] platform@[j]),
            decreases platform@.len() - k,
        {
            let tile = platform[k];
            if solid_tiles.contains(&tile) {
                proof {
                    lemma_first_member(platform@, solid@.to_set(), k as int);
                }
                return Err(LevelError::ClassificationConflict { tile_id: tile });
            }
            platform_tiles.insert(tile);
            proof {
                let before = platform@.take(k as int);
                let after = platform@.take(k + 1);
                assert(after =~= before.push(tile));
                assert forall|t: u32| after.to_set().contains(t) == before.to_set().insert(
                    tile,
                ).contains(t) by {
                    if before.contains(t) {
                        let j = choose|j: int| 0 <= j < before.len() && before[j] == t;
                        assert(after[j] == t);
                    }
                    if after.contains(t) {
                        let j = choose|j: int| 0 <= j < after.len() && after[j] == t;
                        if j < before.len() {
                            assert(before[j] == t);
                        }
                    }
                    if t == tile {
                        assert(after[k as int] == t);
                    }
                }
                assert(after.to_set() =~= before.to_set().insert(tile));
            }
            k = k + 1;
        }
        proof {
            assert(platform@.take(platform@.len() as int) =~= platform@);
            lemma_first_member(platform@, solid@.to_set(), platform@.len() as int);
            assert forall|t: u32| !(solid_tiles@.contains(t) && platform_tiles@.contains(t)) by {
                if platform@.contains(t) {
                    let j = choose|j: int| 0 <= j < platform@.len() && platform@[j] == t;
                    assert(!solid_tiles@.contains(platform@[j]));
                }
            }
        }
        Ok(TileCollisionMap { solid_tiles, platform_tiles })
    }

    /// The collider of `tile` by this classification: a full box for a solid
    /// tile, a thin box for a platform, none for any other tile.
    pub fn collider_for(&self, tile: u32) -> (collider: Option<ColliderKind>)
        ensures
            collider == self.collider(tile),
    {
        if self.solid_tiles.contains(&tile) {
            Some(ColliderKind::Solid)
        } else if self.platform_tiles.contains(&tile) {
            Some(ColliderKind::Platform)
        } else {
            None
        }
    }
}

/// No tile is both solid and platform by the usual classification.
pub proof fn lemma_usual_classification_disjoint()
    ensures
        solid_ids().disjoint(platform_ids()),
{
}

/// The usual classification: grass, stone, brick, rock and spikes are solid;
/// wooden, stone and metal platforms are platforms.
pub fn create_collision_map() -> (map: TileCollisionMap)
    ensures
        map.solid_tiles@ == solid_ids(),
        map.platform_tiles@ == platform_ids(),
        map.well_formed(),
{
    let mut solid: Vec<u32> = Vec::new();
    append_tiles(&mut solid, &GRASS_TILES);
    append_tiles(&mut solid, &STONE_TILES);
    append_tiles(&mut solid, &BRICK_TILES);
    append_tiles(&mut solid, &ROCK_TILES);
    append_tiles(&mut solid, &SPIKES);
    let mut platform: Vec<u32> = Vec::new();
    append_tiles(&mut platform, &WOOD_PLATFORMS);
    append_tiles(&mut platform, &STONE_PLATFORMS);
    append_tiles(&mut platform, &METAL_PLATFORMS);
    proof {
        assert forall|tile: u32| solid@.contains(tile) == is_solid_id(tile) by {
            lemma_tile_runs(tile);
        }
        assert forall|tile: u32| platform@.contains(tile) == is_platform_id(tile) by {
            lemma_tile_runs(tile);
        }
        assert forall|j: int| 0 <= j < platform@.len() implies !solid@.to_set().contains(
            #[trigger] platform@[j],
        ) by {
            assert(platform@.contains(platform@[j]));
        }
        lemma_first_member(platform@, solid@.to_set(), platform@.len() as int);
    }
    match TileCollisionMap::new(solid.as_slice(), platform.as_slice()) {
        Ok(map) => {
            assert(map.solid_tiles@ =~= solid_ids());
            assert(map.platform_tiles@ =~= platform_ids());
            map
        },
        Err(_) => {
            assert(false);
            TileCollisionMap { solid_tiles: HashSet::new(), platform_tiles: HashSet::new() }
        },
    }
}

/// Appends `tiles` to `list`.
fn append_tiles(list: &mut Vec<u32>, tiles: &[u32])
    ensures
        final(list)@ == old(list)@ + tiles@,
        forall|tile: u32|
            final(list)@.contains(tile) == (old(list)@.contains(tile) || tiles@.contains(tile)),
{
    let mut i: usize = 0;
    while i < tiles.len()
        invariant
            i <= tiles@.len(),
            list@ == old(list)@ + tiles@.take(i as int),
        decreases tiles@.len() - i,
    {
        list.push(tiles[i]);
        i = i + 1;
        assert(list@ =~= old(list)@ + tiles@.take(i as int));
    }
    proof {
        assert(tiles@.take(tiles@.len() as int) =~= tiles@);
        let whole = list@;
        let head = old(list)@;
        assert forall|tile: u32| whole.contains(tile) == (head.contains(tile) || tiles@.contains(
            tile,
        )) by {
            if head.contains(tile) {
                let k = choose|k: int| 0 <= k < head.len() && head[k] == tile;
                assert(whole[k] == tile);
            }
            if tiles@.contains(tile) {
                let k = choose|k: int| 0 <= k < tiles@.len() && tiles@[k] == tile;
                assert(whole[head.len() + k] == tile);
            }
            if whole.contains(tile) {
                let k = choose|k: int| 0 <= k < whole.len() && whole[k] == tile;
                if k < head.len() {
                    assert(head[k] == tile);
                } else {
                    assert(tiles@[k - head.len()] == tile);
                }
            }
        }
    }
}

} // verus!
