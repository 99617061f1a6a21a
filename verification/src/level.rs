//! The level grid: a fixed-size table of tile ids, row 0 at the top, and the
//! conversion between grid cells and world coordinates.
//!
//! World coordinates are whole world units. A tile is sixteen units wide and
//! high, and the cell `(gx, gy)` lies at `(gx * 16, -gy * 16)`: x grows to
//! the right, y shrinks downward.

use vstd::prelude::*;
use crate::constants::{EMPTY_TILE, MAX_LEVEL_HEIGHT, MAX_LEVEL_WIDTH, TILE_SIZE_16};
use crate::error::LevelError;

verus! {

/// Mathematical model of a level: its dimensions and its rows of tile ids.
pub ghost struct LevelView {
    pub width: nat,
    pub height: nat,
    pub rows: Seq<Seq<u32>>,
}

impl LevelView {
    /// The grid shape: `height` rows of `width` cells each.
    pub open spec fn well_formed(self) -> bool {
        &&& self.rows.len() == self.height
        &&& forall|y: int| 0 <= y < self.rows.len() ==> (#[trigger] self.rows[y]).len() == self.width
    }

    /// Whether `(gx, gy)` names a cell of the grid.
    pub open spec fn in_bounds(self, gx: int, gy: int) -> bool {
        0 <= gx < self.width && 0 <= gy < self.height
    }

    /// The tile at column `gx` of row `gy`.
    pub open spec fn tile(self, gx: int, gy: int) -> u32 {
        self.rows[gy][gx]
    }

    /// The cell of this grid that holds the world point `(wx, wy)`, or
    /// nothing when the point lies outside the grid.
    pub open spec fn cell_at(self, wx: int, wy: int) -> Option<(u32, u32)> {
        let (gx, gy) = grid_of_world(wx, wy);
        if self.in_bounds(gx, gy) {
            Some((gx as u32, gy as u32))
        } else {
            None
        }
    }

    /// The grid of the given size with `tile` in every cell.
    pub open spec fn filled(width: nat, height: nat, tile: u32) -> LevelView {
        LevelView {
            width,
            height,
            rows: Seq::new(height, |y: int| Seq::new(width, |x: int| tile)),
        }
    }

    /// The grid of the given size with every cell empty.
    pub open spec fn blank(width: nat, height: nat) -> LevelView {
        LevelView::filled(width, height, EMPTY_TILE)
    }

    /// This grid with the cell `(gx, gy)` overwritten by `id`.
    pub open spec fn with_tile(self, gx: int, gy: int, id: u32) -> LevelView {
        LevelView { rows: self.rows.update(gy, self.rows[gy].update(gx, id)), ..self }
    }
}

/// The dimensions that `LevelData::new` accepts.
pub open spec fn size_within_limits(width: u32, height: u32) -> bool {
    1 <= width <= MAX_LEVEL_WIDTH && 1 <= height <= MAX_LEVEL_HEIGHT
}

/// World coordinates of the origin of the cell `(gx, gy)`.
pub open spec fn world_of_grid(gx: int, gy: int) -> (int, int) {
    (gx * TILE_SIZE_16, -(gy * TILE_SIZE_16))
}

/// The cell that holds the world point `(wx, wy)`: both quotients round
/// toward minus infinity, so the result may lie outside any level.
pub open spec fn grid_of_world(wx: int, wy: int) -> (int, int) {
    (wx / TILE_SIZE_16 as int, (-wy) / TILE_SIZE_16 as int)
}

/// One row of `width` cells, all holding `tile`.
pub fn filled_row(width: u32, tile: u32) -> (row: Vec<u32>)
    ensures
        row@ == Seq::new(width as nat, |x: int| tile),
{
    let mut row: Vec<u32> = Vec::new();
    let mut x: u32 = 0;
    while x < width
        invariant
            x <= width,
            row@ == Seq::new(x as nat, |i: int| tile),
        decreases width - x,
    {
        row.push(tile);
        x = x + 1;
        assert(row@ =~= Seq::new(x as nat, |i: int| tile));
    }
    row
}

/// Builds the rows of a grid cell by cell: the cell `(x, y)` holds what
/// `cell` gives for it.
pub(crate) fn build_grid<F: Fn(u32, u32) -> u32>(
    width: u32,
    height: u32,
    cell: F,
    Ghost(spec_cell): Ghost<spec_fn(int, int) -> u32>,
) -> (rows: Vec<Vec<u32>>)
    requires
        forall|x: u32, y: u32| x < width && y < height ==> call_requires(cell, (x, y)),
        forall|x: u32, y: u32, tile: u32|
            x < width && y < height && call_ensures(cell, (x, y), tile) ==> tile == spec_cell(
                x as int,
                y as int,
            ),
    ensures
        rows@.len() == height,
        forall|y: int| 0 <= y < height ==> (#[trigger] rows@[y])@.len() == width,
        rows@.map_values(|row: Vec<u32>| row@) == Seq::new(
            height as nat,
            |y: int| Seq::new(width as nat, |x: int| spec_cell(x, y)),
        ),
{
    let mut rows: Vec<Vec<u32>> = Vec::new();
    let mut y: u32 = 0;
    while y < height
        invariant
            y <= height,
            rows@.len() == y,
            forall|x: u32, y: u32| x < width && y < height ==> call_requires(cell, (x, y)),
            forall|x: u32, y: u32, tile: u32|
                x < width && y < height && call_ensures(cell, (x, y), tile) ==> tile == spec_cell(
                    x as int,
                    y as int,
                ),
            forall|i: int|
                0 <= i < y ==> (#[trigger] rows@[i])@ == Seq::new(
                    width as nat,
                    |x: int| spec_cell(x, i),
                ),
        decreases height - y,
    {
        let mut row: Vec<u32> = Vec::new();
        let mut x: u32 = 0;
        while x < width
            invariant
                x <= width,
                y < height,
                forall|x: u32, y: u32| x < width && y < height ==> call_requires(cell, (x, y)),
                forall|x: u32, y: u32, tile: u32|
                    x < width && y < height && call_ensures(cell, (x, y), tile) ==> tile
                        == spec_cell(x as int, y as int),
                row@ == Seq::new(x as nat, |i: int| spec_cell(i, y as int)),
            decreases width - x,
        {
            let tile = cell(x, y);
            row.push(tile);
            x = x + 1;
            assert(row@ =~= Seq::new(x as nat, |i: int| spec_cell(i, y as int)));
        }
        rows.push(row);
        y = y + 1;
    }
    assert(rows@.map_values(|row: Vec<u32>| row@) =~= Seq::new(
        height as nat,
        |y: int| Seq::new(width as nat, |x: int| spec_cell(x, y)),
    ));
    rows
}

/// A level's tile grid: `height` rows of `width` tile ids, row 0 at the top.
#[derive(Clone, Debug)]
pub struct LevelData {
    pub width: u32,
    pub height: u32,
    pub tiles: Vec<Vec<u32>>,
}

impl View for LevelData {
    type V = LevelView;

    open spec fn view(&self) -> LevelView {
        LevelView {
            width: self.width as nat,
            height: self.height as nat,
            rows: self.tiles@.map_values(|row: Vec<u32>| row@),
        }
    }
}

impl LevelData {
    /// The grid shape: `tiles` holds `height` rows of `width` cells each.
    pub open spec fn well_formed(&self) -> bool {
        &&& self.tiles@.len() == self.height
        &&& forall|y: int| 0 <= y < self.tiles@.len() ==> (#[trigger] self.tiles@[y])@.len() == self.width
    }

    /// The grid shape of a level is the grid shape of its model.
    pub proof fn lemma_well_formed_view(&self)
        ensures
            self.well_formed() == self@.well_formed(),
    {
        let rows = self@.rows;
        assert(rows.len() == self.tiles@.len());
        if self.well_formed() {
            assert forall|y: int| 0 <= y < rows.len() implies (#[trigger] rows[y]).len() == self@.width by {
                assert(rows[y] == self.tiles@[y]@);
            }
        }
        if self@.well_formed() {
            assert forall|y: int| 0 <= y < self.tiles@.len() implies (#[trigger] self.tiles@[y])@.len() == self.width by {
                assert(rows[y] == self.tiles@[y]@);
            }
        }
    }

    /// Whether the level has the grid shape.
    pub fn is_well_formed(&self) -> (shaped: bool)
        ensures
            shaped == self.well_formed(),
    {
        if self.tiles.len() as u64 != self.height as u64 {
            return false;
        }
        let mut y: usize = 0;
        while y < self.tiles.len()
            invariant
                y <= self.tiles@.len(),
                self.tiles@.len() == self.height,
                forall|i: int| 0 <= i < y ==> (#[trigger] self.tiles@[i])@.len() == self.width,
            decreases self.tiles@.len() - y,
        {
            if self.tiles[y].len() as u64 != self.width as u64 {
                return false;
            }
            y = y + 1;
        }
        true
    }

    /// A level of the given size with `tile` in every cell, whatever the size.
    pub fn filled(width: u32, height: u32, tile: u32) -> (level: LevelData)
        ensures
            level@ == LevelView::filled(width as nat, height as nat, tile),
            level.well_formed(),
    {
        let mut tiles: Vec<Vec<u32>> = Vec::new();
        let mut y: u32 = 0;
        while y < height
            invariant
                y <= height,
                tiles@.len() == y,
                forall|i: int| 0 <= i < y ==> (#[trigger] tiles@[i])@ == Seq::new(width as nat, |x: int| tile),
            decreases height - y,
        {
            let row = filled_row(width, tile);
            tiles.push(row);
            y = y + 1;
        }
        let level = LevelData { width, height, tiles };
        assert(level@.rows =~= LevelView::filled(width as nat, height as nat, tile).rows);
        level
    }

    /// An empty level of the given size. It is made when both dimensions are
    /// at least one and neither exceeds its maximum; otherwise nothing is made.
    pub fn new(width: u32, height: u32) -> (made: Option<LevelData>)
        ensures
            made is Some <==> size_within_limits(width, height),
            made is Some ==> made->0@ == LevelView::blank(width as nat, height as nat),
            made is Some ==> made->0.well_formed(),
    {
        if width < 1 || width > MAX_LEVEL_WIDTH || height < 1 || height > MAX_LEVEL_HEIGHT {
            None
        } else {
            Some(LevelData::filled(width, height, EMPTY_TILE))
        }
    }

    /// The tile at `(gx, gy)`, or nothing when the cell is outside the grid.
    pub fn get(&self, gx: u32, gy: u32) -> (tile: Option<u32>)
        requires
            self.well_formed(),
        ensures
            tile == if self@.in_bounds(gx as int, gy as int) {
                Some(self@.tile(gx as int, gy as int))
            } else {
                None
            },
    {
        if gx < self.width && gy < self.height {
            Some(self.tiles[gy as usize][gx as usize])
        } else {
            None
        }
    }

    /// Overwrites the tile at `(gx, gy)`. Outside the grid nothing changes and
    /// the answer is `false`.
    pub fn set(&mut self, gx: u32, gy: u32, id: u32) -> (done: bool)
        requires
            old(self).well_formed(),
        ensures
            done == old(self)@.in_bounds(gx as int, gy as int),
            done ==> final(self)@ == old(self)@.with_tile(gx as int, gy as int, id),
            !done ==> final(self)@ == old(self)@,
            final(self).well_formed(),
    {
        if gx < self.width && gy < self.height {
            let mut row: Vec<u32> = Vec::new();
            std::mem::swap(&mut row, &mut self.tiles[gy as usize]);
            row.set(gx as usize, id);
            self.tiles.set(gy as usize, row);
            proof {
                let before = old(self)@;
                let after = before.with_tile(gx as int, gy as int, id);
                assert forall|y: int| 0 <= y < after.rows.len() implies self@.rows[y] == after.rows[y] by {
                    assert(self@.rows[y] == self.tiles@[y]@);
                    assert(before.rows[y] == old(self).tiles@[y]@);
                }
                assert(self@.rows =~= after.rows);
            }
            true
        } else {
            false
        }
    }

    /// World coordinates of the origin of the cell `(gx, gy)`.
    pub fn grid_to_world(gx: u32, gy: u32) -> (world: (i64, i64))
        ensures
            (world.0 as int, world.1 as int) == world_of_grid(gx as int, gy as int),
    {
        let wx: i64 = (gx as i64) * TILE_SIZE_16;
        let wy: i64 = -((gy as i64) * TILE_SIZE_16);
        (wx, wy)
    }

    /// The cell of this level that holds the world point `(wx, wy)`, or
    /// nothing when the point lies outside the level.
    pub fn world_to_grid(&self, wx: i64, wy: i64) -> (cell: Option<(u32, u32)>)
        ensures
            cell == self@.cell_at(wx as int, wy as int),
    {
        if wx < 0 || wy > 0 {
            return None;
        }
        let gx: i64 = wx / TILE_SIZE_16;
        let below: i64 = if wy == i64::MIN { i64::MAX } else { -wy };
        let gy: i64 = below / TILE_SIZE_16;
        if gx < self.width as i64 && gy < self.height as i64 {
            Some((gx as u32, gy as u32))
        } else {
            None
        }
    }
}

/// Whether `got` is the outcome that `said` describes: the level of the
/// grid shape with that model, or that error.
pub open spec fn reads_as(got: Result<LevelData, LevelError>, said: Result<LevelView, LevelError>) -> bool {
    match said {
        Ok(view) => got is Ok && got->Ok_0@ == view && got->Ok_0.well_formed(),
        Err(e) => got is Err && got->Err_0 == e,
    }
}

/// The tile under the world point `(wx, wy)`, or nothing when the point lies
/// outside the level.
pub fn get_tile_at_position(level_data: &LevelData, wx: i64, wy: i64) -> (tile: Option<u32>)
    requires
        level_data.well_formed(),
    ensures
        tile == {
            let (gx, gy) = grid_of_world(wx as int, wy as int);
            if level_data@.in_bounds(gx, gy) {
                Some(level_data@.tile(gx, gy))
            } else {
                None
            }
        },
{
    match level_data.world_to_grid(wx, wy) {
        Some((gx, gy)) => level_data.get(gx, gy),
        None => None,
    }
}

/// Overwrites the tile under the world point `(wx, wy)`. Outside the level
/// nothing changes and the answer is `false`.
pub fn set_tile_at_position(level_data: &mut LevelData, wx: i64, wy: i64, tile_index: u32) -> (done: bool)
    requires
        old(level_data).well_formed(),
    ensures
        ({
            let (gx, gy) = grid_of_world(wx as int, wy as int);
            &&& done == old(level_data)@.in_bounds(gx, gy)
            &&& done ==> final(level_data)@ == old(level_data)@.with_tile(gx, gy, tile_index)
        }),
        !done ==> final(level_data)@ == old(level_data)@,
        final(level_data).well_formed(),
{
    match level_data.world_to_grid(wx, wy) {
        Some((gx, gy)) => level_data.set(gx, gy, tile_index),
        None => false,
    }
}

/// Converting a cell to world coordinates and back gives the cell again:
/// for any whole numbers the two conversions are inverse, and for a cell of
/// a level the way back finds that cell.
pub proof fn lemma_grid_world_inverse(level: LevelView, gx: int, gy: int)
    ensures
        ({
            let (wx, wy) = world_of_grid(gx, gy);
            &&& grid_of_world(wx, wy) == (gx, gy)
            &&& level.in_bounds(gx, gy) && level.width <= u32::MAX && level.height <= u32::MAX
                ==> level.cell_at(wx, wy) == Some((gx as u32, gy as u32))
        }),
{
}

} // verus!
