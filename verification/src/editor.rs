//! The level editor: its settings, what the keys of a frame do to them, and
//! painting and erasing with a square brush. The editor decides; the
//! application performs what was decided, tile by tile.

use vstd::prelude::*;
use crate::collision::TileCollisionMap;
use crate::constants::{EMPTY_TILE, TILE_SIZE_16};
use crate::csv::{csv_text, level_to_csv, parse_csv, parse_level_text};
use crate::error::LevelError;
use crate::level::{grid_of_world, world_of_grid, LevelData, LevelView};
use crate::placement::{lemma_cell_index, lemma_index_cell};
use crate::spawner::{level_spawns, spawn_level_tiles, spawn_of, TileSpawn};
use crate::text::{decimal, push_decimal};
use crate::tileset::{TileIndex, TilesetInfo, TilesetRegistry};

verus! {

// ---------------------------------------------------------------------------
// Settings and keys
// ---------------------------------------------------------------------------

/// The editor's settings.
#[derive(Clone, Copy, Debug, PartialEq, Eq, Structural)]
pub struct LevelEditor {
    pub enabled: bool,
    pub current_tile: u32,
    pub brush_size: u32,
    pub show_ui: bool,
}

/// The keys that were pressed in one frame: the toggles of the editor and of
/// its panel, the nine tile keys, the two brush keys, and save and load.
#[derive(Clone, Copy, Debug)]
pub struct EditorKeys {
    pub toggle: bool,
    pub toggle_ui: bool,
    pub digits: [bool; 9],
    pub brush_decrease: bool,
    pub brush_increase: bool,
    pub save: bool,
    pub load: bool,
}

/// The smallest brush.
pub const MIN_BRUSH_SIZE: u32 = 1;

/// The largest brush.
pub const MAX_BRUSH_SIZE: u32 = 5;

/// The tile that the tile key `key` selects; the keys count from one, and
/// the ninth selects the empty tile.
pub open spec fn palette_tile(key: int) -> u32 {
    if key == 1 {
        180
    } else if key == 2 {
        176
    } else if key == 3 {
        184
    } else if key == 4 {
        181
    } else if key == 5 {
        182
    } else if key == 6 {
        183
    } else if key == 7 {
        185
    } else if key == 8 {
        187
    } else {
        EMPTY_TILE
    }
}

/// The tile that is selected after the first `count` tile keys were looked
/// at: that of the highest key that was pressed, or `current` when none was.
pub open spec fn selected_tile(current: u32, digits: Seq<bool>, count: nat) -> u32
    decreases count,
{
    if count == 0 {
        current
    } else if digits[count - 1] {
        palette_tile(count as int)
    } else {
        selected_tile(current, digits, (count - 1) as nat)
    }
}

/// A brush size brought into the range from the smallest to the largest
/// brush.
pub open spec fn clamped_brush(size: int) -> u32 {
    if size < MIN_BRUSH_SIZE {
        MIN_BRUSH_SIZE
    } else if size > MAX_BRUSH_SIZE {
        MAX_BRUSH_SIZE
    } else {
        size as u32
    }
}

/// The brush size after the brush keys: first one smaller if asked, then one
/// larger if asked, each time kept within the smallest and the largest brush.
pub open spec fn brush_after(size: u32, decrease: bool, increase: bool) -> u32 {
    let smaller = if decrease {
        clamped_brush(size - 1)
    } else {
        size
    };
    if increase {
        clamped_brush(smaller + 1)
    } else {
        smaller
    }
}

/// The settings after the editor's toggle keys: the editor is switched if
/// asked, and then, if it is on, its panel is switched if asked.
pub open spec fn after_toggles(editor: LevelEditor, keys: EditorKeys) -> LevelEditor {
    let enabled = if keys.toggle {
        !editor.enabled
    } else {
        editor.enabled
    };
    let show_ui = if enabled && keys.toggle_ui {
        !editor.show_ui
    } else {
        editor.show_ui
    };
    LevelEditor { enabled, show_ui, ..editor }
}

/// The settings after the keys of one frame: the editor is switched if
/// asked; while it is off nothing else happens; while it is on a tile key
/// selects its tile and the brush keys change the brush.
pub open spec fn after_input(editor: LevelEditor, keys: EditorKeys) -> LevelEditor {
    let enabled = if keys.toggle {
        !editor.enabled
    } else {
        editor.enabled
    };
    if !enabled {
        LevelEditor { enabled, ..editor }
    } else {
        LevelEditor {
            enabled,
            current_tile: selected_tile(editor.current_tile, keys.digits@, 9),
            brush_size: brush_after(editor.brush_size, keys.brush_decrease, keys.brush_increase),
            show_ui: editor.show_ui,
        }
    }
}

impl Default for LevelEditor {
    /// The settings at the start: the editor is off, grass is selected, the
    /// brush is one tile, the panel is shown.
    fn default() -> (editor: LevelEditor)
        ensures
            editor == (LevelEditor { enabled: false, current_tile: 180, brush_size: 1, show_ui: true }),
    {
        LevelEditor { enabled: false, current_tile: 180, brush_size: 1, show_ui: true }
    }
}

impl EditorKeys {
    /// A frame in which no key was pressed.
    pub fn none() -> (keys: EditorKeys)
        ensures
            !keys.toggle,
            !keys.toggle_ui,
            !keys.brush_decrease,
            !keys.brush_increase,
            !keys.save,
            !keys.load,
            forall|i: int| 0 <= i < 9 ==> !(#[trigger] keys.digits@[i]),
    {
        EditorKeys {
            toggle: false,
            toggle_ui: false,
            digits: [false; 9],
            brush_decrease: false,
            brush_increase: false,
            save: false,
            load: false,
        }
    }
}

/// The lines of the editor's panel that tell its settings.
#[derive(Debug)]
pub struct PanelLines {
    pub tile: String,
    pub brush: String,
}

impl LevelEditor {
    /// The first line of the panel: the selected tile.
    pub open spec fn tile_line(&self) -> Seq<char> {
        "Current Tile: "@ + decimal(self.current_tile as nat)
    }

    /// The second line of the panel: the brush size.
    pub open spec fn brush_line(&self) -> Seq<char> {
        "Brush Size: "@ + decimal(self.brush_size as nat)
    }

    /// The two lines of the editor's panel that tell its settings, the
    /// selected tile and the brush size, when the panel is to be shown: it is
    /// while the editor is on and the panel is not switched off.
    pub fn panel_lines(&self) -> (lines: Option<PanelLines>)
        ensures
            lines is Some <==> self.enabled && self.show_ui,
            lines is Some ==> lines->0.tile@ == self.tile_line() && lines->0.brush@
                == self.brush_line(),
    {
        if !self.enabled || !self.show_ui {
            return None;
        }
        let mut tile_line = "Current Tile: ".to_owned();
        push_decimal(&mut tile_line, self.current_tile as u64);
        let mut brush_line = "Brush Size: ".to_owned();
        push_decimal(&mut brush_line, self.brush_size as u64);
        Some(PanelLines { tile: tile_line, brush: brush_line })
    }
}

/// The tile that the tile key `key` selects.
fn palette(key: usize) -> (tile: u32)
    ensures
        tile == palette_tile(key as int),
{
    if key == 1 {
        180
    } else if key == 2 {
        176
    } else if key == 3 {
        184
    } else if key == 4 {
        181
    } else if key == 5 {
        182
    } else if key == 6 {
        183
    } else if key == 7 {
        185
    } else if key == 8 {
        187
    } else {
        EMPTY_TILE
    }
}

/// Handles the editor's toggle keys, and tells whether the help is to be
/// shown: it is when the editor was just switched on.
pub fn toggle_level_editor(keys: &EditorKeys, editor: &mut LevelEditor) -> (help: bool)
    ensures
        *final(editor) == after_toggles(*old(editor), *keys),
        help == (keys.toggle && !old(editor).enabled),
{
    let mut help = false;
    if keys.toggle {
        editor.enabled = !editor.enabled;
        help = editor.enabled;
    }
    if editor.enabled && keys.toggle_ui {
        editor.show_ui = !editor.show_ui;
    }
    help
}

/// Handles the keys of one frame: the toggle, and, while the editor is on,
/// the tile keys and the brush keys.
pub fn level_editor_input(keys: &EditorKeys, editor: &mut LevelEditor)
    ensures
        *final(editor) == after_input(*old(editor), *keys),
{
    if keys.toggle {
        editor.enabled = !editor.enabled;
    }
    if !editor.enabled {
        return;
    }
    let mut key: usize = 1;
    while key <= 9
        invariant
            1 <= key <= 10,
            editor.enabled == after_input(*old(editor), *keys).enabled,
            editor.show_ui == old(editor).show_ui,
            editor.brush_size == old(editor).brush_size,
            editor.current_tile == selected_tile(old(editor).current_tile, keys.digits@, (key - 1) as nat),
        decreases 10 - key,
    {
        if keys.digits[key - 1] {
            editor.current_tile = palette(key);
        }
        key = key + 1;
    }
    if keys.brush_decrease {
        editor.brush_size = if editor.brush_size <= MIN_BRUSH_SIZE {
            MIN_BRUSH_SIZE
        } else if editor.brush_size > MAX_BRUSH_SIZE {
            MAX_BRUSH_SIZE
        } else {
            editor.brush_size - 1
        };
    }
    if keys.brush_increase {
        editor.brush_size = if editor.brush_size >= MAX_BRUSH_SIZE {
            MAX_BRUSH_SIZE
        } else if editor.brush_size < MIN_BRUSH_SIZE {
            MIN_BRUSH_SIZE
        } else {
            editor.brush_size + 1
        };
    }
}

// ---------------------------------------------------------------------------
// The brush
// ---------------------------------------------------------------------------

/// The cells under a brush, cut to the level: the cells `(gx, gy)` with
/// `x0 <= gx < x1` and `y0 <= gy < y1`.
pub ghost struct Brush {
    pub x0: int,
    pub x1: int,
    pub y0: int,
    pub y1: int,
}

/// The value `v`, brought into the range from `low` to `high`.
pub open spec fn clamped(v: int, low: int, high: int) -> int {
    if v < low {
        low
    } else if v > high {
        high
    } else {
        v
    }
}

/// The brush of size `brush_size` around the cell that holds the world point
/// `(world_x, world_y)`, cut to a level of the given size: the cells of the
/// level that are at most half the brush size, rounded down, away from that
/// cell in either direction.
pub open spec fn brush_of(width: nat, height: nat, world_x: int, world_y: int, brush_size: u32) -> Brush {
    let (cx, cy) = grid_of_world(world_x, world_y);
    let r = brush_size as int / 2;
    Brush {
        x0: clamped(cx - r, 0, width as int),
        x1: clamped(cx + r + 1, 0, width as int),
        y0: clamped(cy - r, 0, height as int),
        y1: clamped(cy + r + 1, 0, height as int),
    }
}

impl Brush {
    /// Whether the cell `(gx, gy)` is under the brush.
    pub open spec fn covers(self, gx: int, gy: int) -> bool {
        self.x0 <= gx < self.x1 && self.y0 <= gy < self.y1
    }

    /// How many columns the brush spans.
    pub open spec fn columns(self) -> int {
        self.x1 - self.x0
    }

    /// How many rows the brush spans.
    pub open spec fn rows(self) -> int {
        self.y1 - self.y0
    }

    /// How many cells are under the brush.
    pub open spec fn count(self) -> int {
        self.columns() * self.rows()
    }

    /// The cell number `i` under the brush, the cells taken row by row from
    /// the top.
    pub open spec fn cell(self, i: int) -> (int, int) {
        (self.x0 + i % self.columns(), self.y0 + i / self.columns())
    }

    /// Whether the brush is a rectangle of cells of a level of the given
    /// size.
    pub open spec fn within(self, width: nat, height: nat) -> bool {
        0 <= self.x0 <= self.x1 <= width && 0 <= self.y0 <= self.y1 <= height
    }
}

/// The brush is cut to the level, and it covers exactly the cells of the
/// level that are at most its radius away from the cell under the pointer.
pub proof fn lemma_brush_cells(width: nat, height: nat, world_x: int, world_y: int, brush_size: u32, gx: int, gy: int)
    ensures
        brush_of(width, height, world_x, world_y, brush_size).within(width, height),
        brush_of(width, height, world_x, world_y, brush_size).covers(gx, gy) <==> {
            let (cx, cy) = grid_of_world(world_x, world_y);
            let r = brush_size as int / 2;
            &&& 0 <= gx < width
            &&& 0 <= gy < height
            &&& cx - r <= gx <= cx + r
            &&& cy - r <= gy <= cy + r
        },
{
}

/// The level after the cells under the brush were set to `tile`.
pub open spec fn painted(level: LevelView, brush: Brush, tile: u32) -> LevelView {
    LevelView {
        rows: Seq::new(
            level.height,
            |gy: int|
                Seq::new(
                    level.width,
                    |gx: int|
                        if brush.covers(gx, gy) {
                            tile
                        } else {
                            level.tile(gx, gy)
                        },
                ),
        ),
        ..level
    }
}

// ---------------------------------------------------------------------------
// The editor's tiles in the world
// ---------------------------------------------------------------------------

/// An editor tile that is in the world: the world coordinates of its centre,
/// and its tile.
#[derive(Clone, Copy, Debug, PartialEq, Eq, Structural)]
pub struct PlacedTile {
    pub world_x: i64,
    pub world_y: i64,
    pub index: u32,
}

/// What an edit asks of the application: the editor tiles to take out of the
/// world, by their positions in the list that was handed in, and the tiles to
/// bring into the world.
#[derive(Debug)]
pub struct EditorEdit {
    pub despawn: Vec<usize>,
    pub spawn: Vec<TileSpawn>,
}

/// Whether the placed tile lies within half a tile of the centre of the cell
/// `(gx, gy)`.
pub open spec fn is_near(placed: PlacedTile, gx: int, gy: int) -> bool {
    let dx = placed.world_x - world_of_grid(gx, gy).0;
    let dy = placed.world_y - world_of_grid(gx, gy).1;
    dx * dx + dy * dy < (TILE_SIZE_16 / 2) * (TILE_SIZE_16 / 2)
}

/// Whether the placed tile lies within half a tile of the centre of a cell
/// under the brush.
pub open spec fn touched(placed: PlacedTile, brush: Brush) -> bool {
    exists|gx: int, gy: int| brush.covers(gx, gy) && is_near(placed, gx, gy)
}

/// The positions, among the first `count` placed tiles, of those that the
/// brush touches, in rising order.
pub open spec fn despawned(existing: Seq<PlacedTile>, brush: Brush, count: nat) -> Seq<usize>
    decreases count,
{
    if count == 0 {
        Seq::empty()
    } else {
        let rest = despawned(existing, brush, (count - 1) as nat);
        if touched(existing[count - 1], brush) {
            rest.push((count - 1) as usize)
        } else {
            rest
        }
    }
}

/// The placed tiles that the brush does not touch, in order.
pub open spec fn kept_tiles(existing: Seq<PlacedTile>, brush: Brush) -> Seq<PlacedTile>
    decreases existing.len(),
{
    if existing.len() == 0 {
        Seq::empty()
    } else {
        let rest = kept_tiles(existing.drop_last(), brush);
        if touched(existing.last(), brush) {
            rest
        } else {
            rest.push(existing.last())
        }
    }
}

/// The tiles that painting `tile` brings into the world: none for the empty
/// tile, else one for each cell under the brush, row by row from the top,
/// each at the world coordinates of its cell and marked as an editor tile.
pub open spec fn editor_spawns(brush: Brush, tile: u32, info: TilesetInfo, solid: Set<u32>, platform: Set<u32>) -> Seq<
    TileSpawn,
> {
    if tile == EMPTY_TILE {
        Seq::empty()
    } else {
        Seq::new(
            brush.count() as nat,
            |i: int|
                spawn_of(
                    tile,
                    world_of_grid(brush.cell(i).0, brush.cell(i).1).0,
                    world_of_grid(brush.cell(i).0, brush.cell(i).1).1,
                    info,
                    solid,
                    platform,
                    true,
                ),
        )
    }
}

/// A tile that was brought into the world, as a placed tile.
pub open spec fn placed_of(spawn: TileSpawn) -> PlacedTile {
    PlacedTile { world_x: spawn.world_x, world_y: spawn.world_y, index: spawn.tile.index }
}

/// The editor's tiles in the world after an edit was performed: the tiles
/// that the brush did not touch, then the tiles that were brought in.
pub open spec fn world_after(existing: Seq<PlacedTile>, brush: Brush, spawns: Seq<TileSpawn>) -> Seq<PlacedTile> {
    kept_tiles(existing, brush) + spawns.map_values(|spawn: TileSpawn| placed_of(spawn))
}

/// The tileset that a registry draws from.
pub open spec fn active_tileset(registry: TilesetRegistry) -> TilesetInfo {
    registry.tilesets@[registry.current_tileset as int]
}

// ---------------------------------------------------------------------------
// Painting and erasing
// ---------------------------------------------------------------------------

/// The quotient of `v` by sixteen, rounded toward minus infinity.
fn floor_div_16(v: i64) -> (q: i64)
    ensures
        q == v as int / 16,
{
    if v >= 0 {
        v / 16
    } else {
        let up: i64 = -(v + 1);
        -(up / 16) - 1
    }
}

/// The cell that holds the world point `(world_x, world_y)`, which may lie
/// outside any level.
fn cell_of_world(world_x: i64, world_y: i64) -> (cell: (i64, i64))
    ensures
        (cell.0 as int, cell.1 as int) == grid_of_world(world_x as int, world_y as int),
{
    let cx = floor_div_16(world_x);
    let cy = if world_y == i64::MIN {
        0x0800_0000_0000_0000
    } else {
        floor_div_16(-world_y)
    };
    (cx, cy)
}

/// The value `v`, brought into the range from zero to `high`.
fn clamp_to(v: i64, high: u32) -> (c: u32)
    ensures
        c == clamped(v as int, 0, high as int),
{
    if v < 0 {
        0
    } else if v > high as i64 {
        high
    } else {
        v as u32
    }
}

/// The bounds of the brush around the world point, cut to the level.
fn brush_bounds(level_data: &LevelData, world_x: i64, world_y: i64, brush_size: u32) -> (bounds: (u32, u32, u32, u32))
    ensures
        ({
            let brush = brush_of(
                level_data@.width,
                level_data@.height,
                world_x as int,
                world_y as int,
                brush_size,
            );
            &&& bounds.0 == brush.x0
            &&& bounds.1 == brush.x1
            &&& bounds.2 == brush.y0
            &&& bounds.3 == brush.y1
            &&& brush.within(level_data@.width, level_data@.height)
        }),
{
    let (cx, cy) = cell_of_world(world_x, world_y);
    let r: i64 = (brush_size / 2) as i64;
    let x0 = clamp_to(cx - r, level_data.width);
    let x1 = clamp_to(cx + r + 1, level_data.width);
    let y0 = clamp_to(cy - r, level_data.height);
    let y1 = clamp_to(cy + r + 1, level_data.height);
    (x0, x1, y0, y1)
}

/// Sets the cells under the brush to `tile`.
fn paint_cells(level_data: &mut LevelData, x0: u32, x1: u32, y0: u32, y1: u32, tile: u32)
    requires
        old(level_data).well_formed(),
        x0 <= x1 <= old(level_data).width,
        y0 <= y1 <= old(level_data).height,
    ensures
        final(level_data)@ == painted(
            old(level_data)@,
            Brush { x0: x0 as int, x1: x1 as int, y0: y0 as int, y1: y1 as int },
            tile,
        ),
        final(level_data).well_formed(),
{
    let ghost before = level_data@;
    let ghost brush = Brush { x0: x0 as int, x1: x1 as int, y0: y0 as int, y1: y1 as int };
    proof {
        level_data.lemma_well_formed_view();
    }
    let mut gy: u32 = y0;
    while gy < y1
        invariant
            y0 <= gy <= y1,
            x0 <= x1 <= before.width,
            y1 <= before.height,
            before == old(level_data)@,
            before.well_formed(),
            brush == (Brush { x0: x0 as int, x1: x1 as int, y0: y0 as int, y1: y1 as int }),
            level_data.well_formed(),
            level_data.width == before.width,
            level_data.height == before.height,
            forall|x: int, y: int|
                0 <= x < before.width && 0 <= y < before.height ==> #[trigger] level_data@.tile(x, y)
                    == if brush.covers(x, y) && y < gy {
                    tile
                } else {
                    before.tile(x, y)
                },
        decreases y1 - gy,
    {
        let mut gx: u32 = x0;
        while gx < x1
            invariant
                x0 <= gx <= x1,
                y0 <= gy < y1,
                x1 <= before.width,
                y1 <= before.height,
                before == old(level_data)@,
                before.well_formed(),
                brush == (Brush { x0: x0 as int, x1: x1 as int, y0: y0 as int, y1: y1 as int }),
                level_data.well_formed(),
                level_data.width == before.width,
                level_data.height == before.height,
                forall|x: int, y: int|
                    0 <= x < before.width && 0 <= y < before.height ==> #[trigger] level_data@.tile(x, y)
                        == if brush.covers(x, y) && (y < gy || (y == gy && x < gx)) {
                        tile
                    } else {
                        before.tile(x, y)
                    },
            decreases x1 - gx,
        {
            let ghost prior = level_data@;
            let done = level_data.set(gx, gy, tile);
            proof {
                level_data.lemma_well_formed_view();
                assert forall|x: int, y: int|
                    0 <= x < before.width && 0 <= y < before.height implies #[trigger] level_data@.tile(
                    x,
                    y,
                ) == if brush.covers(x, y) && (y < gy || (y == gy && x < gx + 1)) {
                    tile
                } else {
                    before.tile(x, y)
                } by {
                    assert(prior.tile(x, y) == if brush.covers(x, y) && (y < gy || (y == gy && x < gx)) {
                        tile
                    } else {
                        before.tile(x, y)
                    });
                }
            }
            gx = gx + 1;
        }
        gy = gy + 1;
    }
    proof {
        let after = painted(before, brush, tile);
        level_data.lemma_well_formed_view();
        assert forall|y: int| 0 <= y < after.rows.len() implies level_data@.rows[y] == after.rows[y] by {
            assert forall|x: int| 0 <= x < before.width implies level_data@.rows[y][x] == after.rows[y][x] by {
                assert(level_data@.tile(x, y) == level_data@.rows[y][x]);
            }
            assert(level_data@.rows[y].len() == before.width);
            assert(level_data@.rows[y] =~= after.rows[y]);
        }
        assert(level_data@.rows =~= after.rows);
    }
}

/// Whether the placed tile lies within half a tile of the centre of the cell
/// `(gx, gy)`.
fn near_cell(placed: &PlacedTile, gx: u32, gy: u32) -> (near: bool)
    ensures
        near == is_near(*placed, gx as int, gy as int),
{
    let dx: i128 = placed.world_x as i128 - (gx as i128) * 16;
    let dy: i128 = placed.world_y as i128 + (gy as i128) * 16;
    if dx <= -8 || dx >= 8 || dy <= -8 || dy >= 8 {
        assert(dx * dx + dy * dy >= 64) by (nonlinear_arith)
            requires
                dx <= -8 || dx >= 8 || dy <= -8 || dy >= 8,
        ;
        false
    } else {
        assert(0 <= dx * dx <= 49 && 0 <= dy * dy <= 49) by (nonlinear_arith)
            requires
                -8 < dx < 8,
                -8 < dy < 8,
        ;
        dx * dx + dy * dy < 64
    }
}

/// Whether the brush touches the placed tile.
fn brush_touches(placed: &PlacedTile, x0: u32, x1: u32, y0: u32, y1: u32) -> (hit: bool)
    requires
        x0 <= x1,
        y0 <= y1,
    ensures
        hit == touched(*placed, Brush { x0: x0 as int, x1: x1 as int, y0: y0 as int, y1: y1 as int }),
{
    let ghost brush = Brush { x0: x0 as int, x1: x1 as int, y0: y0 as int, y1: y1 as int };
    let mut gy: u32 = y0;
    while gy < y1
        invariant
            y0 <= gy <= y1,
            x0 <= x1,
            brush == (Brush { x0: x0 as int, x1: x1 as int, y0: y0 as int, y1: y1 as int }),
            forall|x: int, y: int| brush.covers(x, y) && y < gy ==> !is_near(*placed, x, y),
        decreases y1 - gy,
    {
        let mut gx: u32 = x0;
        while gx < x1
            invariant
                x0 <= gx <= x1,
                y0 <= gy < y1,
                brush == (Brush { x0: x0 as int, x1: x1 as int, y0: y0 as int, y1: y1 as int }),
                forall|x: int, y: int|
                    brush.covers(x, y) && (y < gy || (y == gy && x < gx)) ==> !is_near(*placed, x, y),
            decreases x1 - gx,
        {
            if near_cell(placed, gx, gy) {
                assert(brush.covers(gx as int, gy as int) && is_near(*placed, gx as int, gy as int));
                return true;
            }
            gx = gx + 1;
        }
        gy = gy + 1;
    }
    false
}

/// The positions of the placed tiles that the brush touches.
fn touched_tiles(existing_tiles: &Vec<PlacedTile>, x0: u32, x1: u32, y0: u32, y1: u32) -> (despawn: Vec<usize>)
    requires
        x0 <= x1,
        y0 <= y1,
    ensures
        despawn@ == despawned(
            existing_tiles@,
            Brush { x0: x0 as int, x1: x1 as int, y0: y0 as int, y1: y1 as int },
            existing_tiles@.len(),
        ),
{
    let ghost brush = Brush { x0: x0 as int, x1: x1 as int, y0: y0 as int, y1: y1 as int };
    let mut despawn: Vec<usize> = Vec::new();
    let mut i: usize = 0;
    while i < existing_tiles.len()
        invariant
            i <= existing_tiles@.len(),
            x0 <= x1,
            y0 <= y1,
            brush == (Brush { x0: x0 as int, x1: x1 as int, y0: y0 as int, y1: y1 as int }),
            despawn@ == despawned(existing_tiles@, brush, i as nat),
        decreases existing_tiles@.len() - i,
    {
        if brush_touches(&existing_tiles[i], x0, x1, y0, y1) {
            despawn.push(i);
        }
        i = i + 1;
    }
    despawn
}

/// The tile `tile_index` to bring into the world at `(world_x, world_y)` as
/// an editor tile: drawn from the atlas cell of the tile, with the collider
/// of its kind.
pub fn spawn_editor_tile(
    tile_index: u32,
    world_x: i64,
    world_y: i64,
    tileset_info: &TilesetInfo,
    collision_map: &TileCollisionMap,
) -> (spawn: TileSpawn)
    requires
        tileset_info.tiles_per_row > 0,
    ensures
        spawn == spawn_of(
            tile_index,
            world_x as int,
            world_y as int,
            *tileset_info,
            collision_map.solid_tiles@,
            collision_map.platform_tiles@,
            true,
        ),
{
    TileSpawn {
        tile: TileIndex::new(tile_index, tileset_info.tiles_per_row),
        world_x,
        world_y,
        texture_handle: tileset_info.texture_handle,
        layout_handle: tileset_info.layout_handle,
        collider: collision_map.collider_for(tile_index),
        editor_tile: true,
    }
}

/// The editor tiles for the cells under the brush.
fn brush_spawns(
    x0: u32,
    x1: u32,
    y0: u32,
    y1: u32,
    tile_index: u32,
    tileset_info: &TilesetInfo,
    collision_map: &TileCollisionMap,
) -> (spawns: Vec<TileSpawn>)
    requires
        x0 <= x1,
        y0 <= y1,
        tile_index != EMPTY_TILE,
        tileset_info.tiles_per_row > 0,
    ensures
        spawns@ == editor_spawns(
            Brush { x0: x0 as int, x1: x1 as int, y0: y0 as int, y1: y1 as int },
            tile_index,
            *tileset_info,
            collision_map.solid_tiles@,
            collision_map.platform_tiles@,
        ),
{
    let ghost brush = Brush { x0: x0 as int, x1: x1 as int, y0: y0 as int, y1: y1 as int };
    let ghost wanted = editor_spawns(
        brush,
        tile_index,
        *tileset_info,
        collision_map.solid_tiles@,
        collision_map.platform_tiles@,
    );
    let ghost columns = brush.columns();
    let ghost rows = brush.rows();
    let mut spawns: Vec<TileSpawn> = Vec::new();
    let mut gy: u32 = y0;
    proof {
        assert(columns * 0 == 0) by (nonlinear_arith);
        assert(0 <= columns * rows) by (nonlinear_arith)
            requires
                0 <= columns,
                0 <= rows,
        ;
    }
    while gy < y1
        invariant
            y0 <= gy <= y1,
            x0 <= x1,
            tile_index != EMPTY_TILE,
            tileset_info.tiles_per_row > 0,
            brush == (Brush { x0: x0 as int, x1: x1 as int, y0: y0 as int, y1: y1 as int }),
            columns == brush.columns(),
            rows == brush.rows(),
            wanted == editor_spawns(
                brush,
                tile_index,
                *tileset_info,
                collision_map.solid_tiles@,
                collision_map.platform_tiles@,
            ),
            spawns@.len() == columns * (gy - y0),
            forall|i: int| 0 <= i < spawns@.len() ==> #[trigger] spawns@[i] == wanted[i],
        decreases y1 - gy,
    {
        let mut gx: u32 = x0;
        while gx < x1
            invariant
                x0 <= gx <= x1,
                y0 <= gy < y1,
                tile_index != EMPTY_TILE,
                tileset_info.tiles_per_row > 0,
                brush == (Brush { x0: x0 as int, x1: x1 as int, y0: y0 as int, y1: y1 as int }),
                columns == brush.columns(),
                rows == brush.rows(),
                wanted == editor_spawns(
                    brush,
                    tile_index,
                    *tileset_info,
                    collision_map.solid_tiles@,
                    collision_map.platform_tiles@,
                ),
                spawns@.len() == columns * (gy - y0) + (gx - x0),
                forall|i: int| 0 <= i < spawns@.len() ==> #[trigger] spawns@[i] == wanted[i],
            decreases x1 - gx,
        {
            let world_x: i64 = gx as i64 * TILE_SIZE_16;
            let world_y: i64 = -(gy as i64 * TILE_SIZE_16);
            let spawn = spawn_editor_tile(tile_index, world_x, world_y, tileset_info, collision_map);
            proof {
                let i = spawns@.len() as int;
                lemma_cell_index(columns, rows, gx - x0, gy - y0);
                assert(brush.cell(i) == (gx as int, gy as int));
                assert(wanted[i] == spawn);
            }
            spawns.push(spawn);
            gx = gx + 1;
        }
        proof {
            assert(columns * (gy + 1 - y0) == columns * (gy - y0) + columns) by (nonlinear_arith);
        }
        gy = gy + 1;
    }
    assert(spawns@ =~= wanted);
    spawns
}

/// Paints `tile_index` with a square brush around the world point
/// `(world_x, world_y)`.
///
/// Every cell of the level under the brush is set to `tile_index`. Every
/// editor tile of `existing_tiles` that lies within half a tile of the
/// centre of such a cell is to be taken out of the world, and, unless
/// `tile_index` is the empty tile, a new editor tile is to be brought in for
/// each such cell.
pub fn place_tile_at_world_pos(
    level_data: &mut LevelData,
    world_x: i64,
    world_y: i64,
    tile_index: u32,
    brush_size: u32,
    tileset_registry: &TilesetRegistry,
    collision_map: &TileCollisionMap,
    existing_tiles: &Vec<PlacedTile>,
) -> (edit: EditorEdit)
    requires
        old(level_data).well_formed(),
        tile_index != EMPTY_TILE && brush_of(
            old(level_data)@.width,
            old(level_data)@.height,
            world_x as int,
            world_y as int,
            brush_size,
        ).count() > 0 ==> tileset_registry.current_tileset < tileset_registry.tilesets@.len()
            && active_tileset(*tileset_registry).tiles_per_row > 0,
    ensures
        ({
            let brush = brush_of(
                old(level_data)@.width,
                old(level_data)@.height,
                world_x as int,
                world_y as int,
                brush_size,
            );
            &&& final(level_data)@ == painted(old(level_data)@, brush, tile_index)
            &&& edit.despawn@ == despawned(existing_tiles@, brush, existing_tiles@.len())
            &&& edit.spawn@ == editor_spawns(
                brush,
                tile_index,
                active_tileset(*tileset_registry),
                collision_map.solid_tiles@,
                collision_map.platform_tiles@,
            )
        }),
        final(level_data).well_formed(),
{
    let (x0, x1, y0, y1) = brush_bounds(level_data, world_x, world_y, brush_size);
    let ghost brush = Brush { x0: x0 as int, x1: x1 as int, y0: y0 as int, y1: y1 as int };
    let despawn = touched_tiles(existing_tiles, x0, x1, y0, y1);
    paint_cells(level_data, x0, x1, y0, y1, tile_index);
    let spawn = if tile_index != EMPTY_TILE && x0 < x1 && y0 < y1 {
        proof {
            assert(brush.count() > 0) by (nonlinear_arith)
                requires
                    brush.count() == (x1 - x0) * (y1 - y0),
                    x0 < x1,
                    y0 < y1,
            ;
        }
        let tileset_info = &tileset_registry.tilesets[tileset_registry.current_tileset];
        brush_spawns(x0, x1, y0, y1, tile_index, tileset_info, collision_map)
    } else {
        proof {
            if tile_index != EMPTY_TILE {
                assert(brush.count() == 0) by (nonlinear_arith)
                    requires
                        brush.count() == (x1 - x0) * (y1 - y0),
                        x0 == x1 || y0 == y1,
                ;
                assert(editor_spawns(
                    brush,
                    tile_index,
                    active_tileset(*tileset_registry),
                    collision_map.solid_tiles@,
                    collision_map.platform_tiles@,
                ) =~= Seq::<TileSpawn>::empty());
            }
        }
        Vec::new()
    };
    EditorEdit { despawn, spawn }
}

/// Erases with a square brush around the world point `(world_x, world_y)`.
///
/// Every cell of the level under the brush is emptied, and every editor tile
/// of `existing_tiles` that lies within half a tile of the centre of such a
/// cell is to be taken out of the world. Nothing is brought in.
pub fn remove_tile_at_world_pos(
    level_data: &mut LevelData,
    world_x: i64,
    world_y: i64,
    brush_size: u32,
    existing_tiles: &Vec<PlacedTile>,
) -> (edit: EditorEdit)
    requires
        old(level_data).well_formed(),
    ensures
        ({
            let brush = brush_of(
                old(level_data)@.width,
                old(level_data)@.height,
                world_x as int,
                world_y as int,
                brush_size,
            );
            &&& final(level_data)@ == painted(old(level_data)@, brush, EMPTY_TILE)
            &&& edit.despawn@ == despawned(existing_tiles@, brush, existing_tiles@.len())
        }),
        edit.spawn@.len() == 0,
        final(level_data).well_formed(),
{
    let (x0, x1, y0, y1) = brush_bounds(level_data, world_x, world_y, brush_size);
    let despawn = touched_tiles(existing_tiles, x0, x1, y0, y1);
    paint_cells(level_data, x0, x1, y0, y1, EMPTY_TILE);
    EditorEdit { despawn, spawn: Vec::new() }
}

// ---------------------------------------------------------------------------
// The pointer
// ---------------------------------------------------------------------------

/// The level after the pointer's buttons of one frame: erased under the
/// brush if the erase button is down, else painted if the paint button is.
pub open spec fn after_pointer(level: LevelView, brush: Brush, tile: u32, paint: bool, erase: bool) -> LevelView {
    if erase {
        painted(level, brush, EMPTY_TILE)
    } else if paint {
        painted(level, brush, tile)
    } else {
        level
    }
}

/// Whether the pointer edits the level in this frame: the editor is on, the
/// pointer is over the world, and a button is down.
pub open spec fn pointer_edits(editor: LevelEditor, pointer: Option<(i64, i64)>, paint: bool, erase: bool) -> bool {
    editor.enabled && pointer is Some && (paint || erase)
}

/// The brush of the given size around the world point under the pointer, cut
/// to the level; no cell when the pointer is not over the world.
pub open spec fn pointer_brush(level: LevelView, pointer: Option<(i64, i64)>, brush_size: u32) -> Brush {
    match pointer {
        Some((world_x, world_y)) => brush_of(
            level.width,
            level.height,
            world_x as int,
            world_y as int,
            brush_size,
        ),
        None => Brush { x0: 0, x1: 0, y0: 0, y1: 0 },
    }
}

/// Erasing what was just painted is erasing.
proof fn lemma_erase_after_paint(level: LevelView, brush: Brush, tile: u32)
    requires
        level.well_formed(),
    ensures
        painted(painted(level, brush, tile), brush, EMPTY_TILE) == painted(level, brush, EMPTY_TILE),
{
    let once = painted(level, brush, tile);
    let twice = painted(once, brush, EMPTY_TILE);
    let erased = painted(level, brush, EMPTY_TILE);
    assert forall|y: int| 0 <= y < level.height implies twice.rows[y] == erased.rows[y] by {
        assert(twice.rows[y] =~= erased.rows[y]);
    }
    assert(twice.rows =~= erased.rows);
}

/// Handles the pointer of one frame. `pointer` is the world point under the
/// pointer, if it is over the world; `paint` and `erase` tell which buttons
/// are down.
///
/// While the editor is off, or the pointer is not over the world, or no
/// button is down, nothing happens. Otherwise the brush of the editor's size
/// is applied around the pointer: the paint button paints the selected tile,
/// the erase button erases, and when both are down the level is erased but
/// the painted tiles are still brought into the world.
pub fn level_editor_mouse(
    editor: &LevelEditor,
    level_data: &mut LevelData,
    pointer: Option<(i64, i64)>,
    paint: bool,
    erase: bool,
    tileset_registry: &TilesetRegistry,
    collision_map: &TileCollisionMap,
    existing_tiles: &Vec<PlacedTile>,
) -> (edit: EditorEdit)
    requires
        old(level_data).well_formed(),
        pointer_edits(*editor, pointer, paint, erase) && paint && editor.current_tile != EMPTY_TILE
            && pointer_brush(old(level_data)@, pointer, editor.brush_size).count() > 0 ==> tileset_registry.current_tileset < tileset_registry.tilesets@.len()
            && active_tileset(*tileset_registry).tiles_per_row > 0,
    ensures
        final(level_data).well_formed(),
        !pointer_edits(*editor, pointer, paint, erase) ==> final(level_data)@ == old(level_data)@
            && edit.despawn@.len() == 0 && edit.spawn@.len() == 0,
        pointer_edits(*editor, pointer, paint, erase) ==> {
            let brush = pointer_brush(old(level_data)@, pointer, editor.brush_size);
            &&& final(level_data)@ == after_pointer(
                old(level_data)@,
                brush,
                editor.current_tile,
                paint,
                erase,
            )
            &&& edit.despawn@ == despawned(existing_tiles@, brush, existing_tiles@.len())
            &&& edit.spawn@ == if paint {
                editor_spawns(
                    brush,
                    editor.current_tile,
                    active_tileset(*tileset_registry),
                    collision_map.solid_tiles@,
                    collision_map.platform_tiles@,
                )
            } else {
                Seq::<TileSpawn>::empty()
            }
        },
{
    if !editor.enabled || !(paint || erase) {
        return EditorEdit { despawn: Vec::new(), spawn: Vec::new() };
    }
    let (world_x, world_y) = match pointer {
        Some(point) => point,
        None => {
            return EditorEdit { despawn: Vec::new(), spawn: Vec::new() };
        },
    };
    let ghost before = level_data@;
    let ghost brush = brush_of(
        before.width,
        before.height,
        world_x as int,
        world_y as int,
        editor.brush_size,
    );
    proof {
        level_data.lemma_well_formed_view();
    }
    if paint {
        let painting = place_tile_at_world_pos(
            level_data,
            world_x,
            world_y,
            editor.current_tile,
            editor.brush_size,
            tileset_registry,
            collision_map,
            existing_tiles,
        );
        if erase {
            proof {
                lemma_erase_after_paint(before, brush, editor.current_tile);
            }
            let erasing = remove_tile_at_world_pos(
                level_data,
                world_x,
                world_y,
                editor.brush_size,
                existing_tiles,
            );
            EditorEdit { despawn: painting.despawn, spawn: painting.spawn }
        } else {
            painting
        }
    } else {
        let erasing = remove_tile_at_world_pos(
            level_data,
            world_x,
            world_y,
            editor.brush_size,
            existing_tiles,
        );
        assert(erasing.spawn@ =~= Seq::<TileSpawn>::empty());
        erasing
    }
}

// ---------------------------------------------------------------------------
// Painting twice
// ---------------------------------------------------------------------------

/// The tiles that the brush leaves of two lists are what it leaves of the
/// first, then what it leaves of the second.
proof fn lemma_kept_tiles_concat(first: Seq<PlacedTile>, second: Seq<PlacedTile>, brush: Brush)
    ensures
        kept_tiles(first + second, brush) == kept_tiles(first, brush) + kept_tiles(second, brush),
    decreases second.len(),
{
    if second.len() == 0 {
        assert(first + second =~= first);
        assert(kept_tiles(first, brush) + kept_tiles(second, brush) =~= kept_tiles(first, brush));
    } else {
        let whole = first + second;
        assert(whole.drop_last() =~= first + second.drop_last());
        assert(whole.last() == second.last());
        lemma_kept_tiles_concat(first, second.drop_last(), brush);
        if touched(second.last(), brush) {
        } else {
            assert(kept_tiles(whole, brush) =~= kept_tiles(first, brush) + kept_tiles(second, brush));
        }
    }
}

/// The brush touches none of the tiles that it leaves, so it leaves them
/// again.
proof fn lemma_kept_tiles_stay(existing: Seq<PlacedTile>, brush: Brush)
    ensures
        kept_tiles(kept_tiles(existing, brush), brush) == kept_tiles(existing, brush),
    decreases existing.len(),
{
    if existing.len() > 0 {
        lemma_kept_tiles_stay(existing.drop_last(), brush);
        if !touched(existing.last(), brush) {
            let rest = kept_tiles(existing.drop_last(), brush);
            lemma_kept_tiles_concat(rest, seq![existing.last()], brush);
            assert(rest.push(existing.last()) =~= rest + seq![existing.last()]);
            let single = seq![existing.last()];
            assert(single.drop_last() =~= Seq::<PlacedTile>::empty());
            assert(single.last() == existing.last());
            assert(kept_tiles(single.drop_last(), brush) =~= Seq::<PlacedTile>::empty());
            assert(kept_tiles(single, brush) =~= single);
        }
    }
}

/// The brush leaves none of a list of tiles that it touches each.
proof fn lemma_kept_tiles_none(tiles: Seq<PlacedTile>, brush: Brush)
    requires
        forall|i: int| 0 <= i < tiles.len() ==> touched(#[trigger] tiles[i], brush),
    ensures
        kept_tiles(tiles, brush) == Seq::<PlacedTile>::empty(),
    decreases tiles.len(),
{
    if tiles.len() > 0 {
        let rest = tiles.drop_last();
        assert forall|i: int| 0 <= i < rest.len() implies touched(#[trigger] rest[i], brush) by {
            assert(rest[i] == tiles[i]);
        }
        lemma_kept_tiles_none(rest, brush);
        assert(touched(tiles[tiles.len() - 1], brush));
    }
}

/// Painting the same tile at the same pointer twice leaves the level and the
/// editor's tiles in the world as painting once does: a second stroke takes
/// out exactly the tiles that the first brought in, and brings the same tiles
/// in again, so that each cell under the brush keeps one tile.
pub proof fn lemma_paint_twice(
    level: LevelView,
    existing: Seq<PlacedTile>,
    world_x: int,
    world_y: int,
    brush_size: u32,
    tile: u32,
    info: TilesetInfo,
    solid: Set<u32>,
    platform: Set<u32>,
)
    requires
        level.well_formed(),
        level.width <= u32::MAX,
        level.height <= u32::MAX,
    ensures
        ({
            let brush = brush_of(level.width, level.height, world_x, world_y, brush_size);
            let spawns = editor_spawns(brush, tile, info, solid, platform);
            let once = painted(level, brush, tile);
            let world = world_after(existing, brush, spawns);
            &&& brush_of(once.width, once.height, world_x, world_y, brush_size) == brush
            &&& painted(once, brush, tile) == once
            &&& world_after(world, brush, spawns) == world
        }),
{
    let brush = brush_of(level.width, level.height, world_x, world_y, brush_size);
    let spawns = editor_spawns(brush, tile, info, solid, platform);
    let once = painted(level, brush, tile);
    let twice = painted(once, brush, tile);
    assert forall|y: int| 0 <= y < level.height implies twice.rows[y] == once.rows[y] by {
        assert(twice.rows[y] =~= once.rows[y]);
    }
    assert(twice.rows =~= once.rows);
    let brought = spawns.map_values(|spawn: TileSpawn| placed_of(spawn));
    let kept = kept_tiles(existing, brush);
    lemma_brush_cells(level.width, level.height, world_x, world_y, brush_size, 0, 0);
    assert forall|i: int| 0 <= i < brought.len() implies touched(#[trigger] brought[i], brush) by {
        let columns = brush.columns();
        let rows = brush.rows();
        assert(tile != EMPTY_TILE);
        if columns > 0 {
            lemma_index_cell(columns, rows, i);
        } else {
            assert(columns * rows == 0) by (nonlinear_arith)
                requires
                    columns == 0,
            ;
        }
        let (gx, gy) = brush.cell(i);
        assert(brush.covers(gx, gy));
        assert(brought[i] == placed_of(spawns[i]));
        assert(brought[i].world_x == world_of_grid(gx, gy).0);
        assert(brought[i].world_y == world_of_grid(gx, gy).1);
        assert(is_near(brought[i], gx, gy)) by {
            let dx = brought[i].world_x - world_of_grid(gx, gy).0;
            let dy = brought[i].world_y - world_of_grid(gx, gy).1;
            assert(dx == 0 && dy == 0);
            assert(dx * dx + dy * dy == 0) by (nonlinear_arith)
                requires
                    dx == 0,
                    dy == 0,
            ;
        }
    }
    lemma_kept_tiles_none(brought, brush);
    lemma_kept_tiles_stay(existing, brush);
    lemma_kept_tiles_concat(kept, brought, brush);
    assert(kept_tiles(kept + brought, brush) =~= kept);
}

// ---------------------------------------------------------------------------
// Saving and loading
// ---------------------------------------------------------------------------

/// What the save and load keys of one frame ask of the application: the text
/// to write to the level file, if any, and whether to read the level file.
#[derive(Debug)]
pub struct SaveLoadRequest {
    pub save: Option<String>,
    pub load: bool,
}

/// Handles the save and load keys of one frame. While the editor is off
/// nothing is asked. While it is on, the save key asks to write the level as
/// CSV text, and the load key asks to read the level file.
pub fn level_editor_save_load(keys: &EditorKeys, editor: &LevelEditor, level_data: &LevelData) -> (request:
    SaveLoadRequest)
    ensures
        request.load == (editor.enabled && keys.load),
        request.save is Some <==> editor.enabled && keys.save,
        request.save is Some ==> request.save->0@ == csv_text(level_data@),
{
    if !editor.enabled {
        return SaveLoadRequest { save: None, load: false };
    }
    let save = if keys.save {
        Some(level_to_csv(level_data))
    } else {
        None
    };
    SaveLoadRequest { save, load: keys.load }
}

/// The positions `0 .. count`, in order.
pub open spec fn all_positions(count: nat) -> Seq<usize> {
    Seq::new(count, |i: int| i as usize)
}

/// Replaces the level by the one that the CSV text `text` describes, and
/// tells what to do with the tiles in the world: all `existing_count` of them
/// are to be taken out, and the tiles of the new level are to be brought in.
/// A text that describes no level is refused with the first thing wrong with
/// it, and the level stays as it was.
pub fn reload_level(
    level_data: &mut LevelData,
    text: &str,
    existing_count: usize,
    tileset_info: &TilesetInfo,
    collision_map: &TileCollisionMap,
) -> (reloaded: Result<EditorEdit, LevelError>)
    requires
        tileset_info.tiles_per_row > 0,
    ensures
        match parse_csv(text@) {
            Ok(view) => {
                &&& reloaded is Ok
                &&& final(level_data)@ == view
                &&& final(level_data).well_formed()
                &&& reloaded->Ok_0.despawn@ == all_positions(existing_count as nat)
                &&& reloaded->Ok_0.spawn@ == level_spawns(
                    view,
                    *tileset_info,
                    collision_map.solid_tiles@,
                    collision_map.platform_tiles@,
                    view.width * view.height,
                )
            },
            Err(e) => reloaded is Err && reloaded->Err_0 == e && *final(level_data) == *old(level_data),
        },
{
    match parse_level_text(text) {
        Err(e) => Err(e),
        Ok(loaded) => {
            let mut despawn: Vec<usize> = Vec::new();
            let mut i: usize = 0;
            while i < existing_count
                invariant
                    i <= existing_count,
                    despawn@ == all_positions(i as nat),
                decreases existing_count - i,
            {
                despawn.push(i);
                i = i + 1;
                assert(despawn@ =~= all_positions(i as nat));
            }
            let spawn = spawn_level_tiles(&loaded, tileset_info, collision_map);
            *level_data = loaded;
            Ok(EditorEdit { despawn, spawn })
        },
    }
}

} // verus!
