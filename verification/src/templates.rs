//! Level templates: named rectangular patterns of tiles, and their placement
//! into a level. An empty cell of a pattern is transparent: placing the
//! template leaves the level's tile under it as it was.

use vstd::prelude::*;
use crate::constants::EMPTY_TILE;
use crate::level::build_grid;

verus! {

/// Mathematical model of a template: its name, its dimensions and the rows
/// of its pattern.
pub ghost struct TemplateView {
    pub name: Seq<char>,
    pub width: nat,
    pub height: nat,
    pub pattern: Seq<Seq<u32>>,
}

impl TemplateView {
    /// The pattern shape: `height` rows of `width` cells each.
    pub open spec fn well_formed(self) -> bool {
        &&& self.pattern.len() == self.height
        &&& forall|y: int| 0 <= y < self.pattern.len() ==> (#[trigger] self.pattern[y]).len() == self.width
    }

    /// The template with the given name and size whose cell `(x, y)` holds
    /// `cell(x, y)`.
    pub open spec fn of_cells(name: Seq<char>, width: nat, height: nat, cell: spec_fn(int, int) -> u32) -> TemplateView {
        TemplateView {
            name,
            width,
            height,
            pattern: Seq::new(height, |y: int| Seq::new(width, |x: int| cell(x, y))),
        }
    }
}

// ---------------------------------------------------------------------------
// The cells of each kind of template
// ---------------------------------------------------------------------------

/// Ground: the top row is `top`, the row under it is `base`.
pub open spec fn ground_cell(y: int, top: u32, base: u32) -> u32 {
    if y == 0 {
        top
    } else {
        base
    }
}

/// Staircase: `solid` on and to the right of the diagonal, empty to its left.
pub open spec fn staircase_cell(x: int, y: int, solid: u32) -> u32 {
    if x >= y {
        solid
    } else {
        EMPTY_TILE
    }
}

/// Room: `wall` in the two border columns and in the top row, `floor` in the
/// bottom row between the walls, empty inside.
pub open spec fn room_cell(x: int, y: int, width: int, height: int, wall: u32, floor: u32) -> u32 {
    if x == 0 || x == width - 1 {
        wall
    } else if y == height - 1 {
        floor
    } else if y == 0 {
        wall
    } else {
        EMPTY_TILE
    }
}

/// Bridge: `deck` in the top row, `support` under its two ends, empty
/// elsewhere.
pub open spec fn bridge_cell(x: int, y: int, width: int, deck: u32, support: u32) -> u32 {
    if y == 0 {
        deck
    } else if x == 0 || x == width - 1 {
        support
    } else {
        EMPTY_TILE
    }
}

/// Tower: `floor` in the whole bottom row; above it `wall` in the two border
/// columns, and between them `floor` in rows 3, 7, 11 and so on.
pub open spec fn tower_cell(x: int, y: int, width: int, height: int, wall: u32, floor: u32) -> u32 {
    if y == height - 1 {
        floor
    } else if x == 0 || x == width - 1 {
        wall
    } else if y % 4 == 3 {
        floor
    } else {
        EMPTY_TILE
    }
}

/// Pit: `wall` in the two border columns and in the bottom row, empty inside.
pub open spec fn pit_cell(x: int, y: int, width: int, depth: int, wall: u32) -> u32 {
    if x == 0 || x == width - 1 || y == depth - 1 {
        wall
    } else {
        EMPTY_TILE
    }
}

/// Garden: `grass`, with `flower` where `(x + y) % 3 == 0` in every row but
/// the last, and `tree` next to the two top corners when the garden is at
/// least three wide and three high.
pub open spec fn garden_cell(
    x: int,
    y: int,
    width: int,
    height: int,
    grass: u32,
    flower: u32,
    tree: u32,
) -> u32 {
    if width > 2 && height > 2 && y == 0 && (x == 1 || x == width - 2) {
        tree
    } else if y < height - 1 && (x + y) % 3 == 0 {
        flower
    } else {
        grass
    }
}

/// Cave entrance: `solid` outside the circle around the middle cell
/// `(width / 2, height / 2)` whose radius is the smaller of the middle
/// cell's coordinates, empty on and inside it.
pub open spec fn cave_cell(x: int, y: int, width: int, height: int, solid: u32) -> u32 {
    let cx = width / 2;
    let cy = height / 2;
    let r = if cx < cy {
        cx
    } else {
        cy
    };
    if (x - cx) * (x - cx) + (y - cy) * (y - cy) > r * r {
        solid
    } else {
        EMPTY_TILE
    }
}

// ---------------------------------------------------------------------------
// Templates
// ---------------------------------------------------------------------------

/// A named rectangular pattern of tiles.
#[derive(Debug, Clone)]
pub struct LevelTemplate {
    pub name: String,
    pub pattern: Vec<Vec<u32>>,
    pub width: u32,
    pub height: u32,
}

impl View for LevelTemplate {
    type V = TemplateView;

    open spec fn view(&self) -> TemplateView {
        TemplateView {
            name: self.name@,
            width: self.width as nat,
            height: self.height as nat,
            pattern: self.pattern@.map_values(|row: Vec<u32>| row@),
        }
    }
}

impl LevelTemplate {
    /// The pattern shape: `pattern` holds `height` rows of `width` cells.
    pub open spec fn well_formed(&self) -> bool {
        &&& self.pattern@.len() == self.height
        &&& forall|y: int| 0 <= y < self.pattern@.len() ==> (#[trigger] self.pattern@[y])@.len() == self.width
    }

    /// Whether the template has the pattern shape.
    pub fn is_well_formed(&self) -> (shaped: bool)
        ensures
            shaped == self.well_formed(),
    {
        if self.pattern.len() as u64 != self.height as u64 {
            return false;
        }
        let mut y: usize = 0;
        while y < self.pattern.len()
            invariant
                y <= self.pattern@.len(),
                self.pattern@.len() == self.height,
                forall|i: int| 0 <= i < y ==> (#[trigger] self.pattern@[i])@.len() == self.width,
            decreases self.pattern@.len() - y,
        {
            if self.pattern[y].len() as u64 != self.width as u64 {
                return false;
            }
            y = y + 1;
        }
        true
    }

    /// The model of `ground_platform(width, grass_tile, stone_tile)`.
    pub open spec fn ground_platform_view(width: u32, grass_tile: u32, stone_tile: u32) -> TemplateView {
        TemplateView::of_cells(
            "Ground Platform"@,
            width as nat,
            2,
            |x: int, y: int| ground_cell(y, grass_tile, stone_tile),
        )
    }

    /// The model of `floating_platform(width, platform_tile)`.
    pub open spec fn floating_platform_view(width: u32, platform_tile: u32) -> TemplateView {
        TemplateView::of_cells("Floating Platform"@, width as nat, 1, |x: int, y: int| platform_tile)
    }

    /// The model of `pillar(height, stone_tile)`.
    pub open spec fn pillar_view(height: u32, stone_tile: u32) -> TemplateView {
        TemplateView::of_cells("Stone Pillar"@, 1, height as nat, |x: int, y: int| stone_tile)
    }

    /// The model of `staircase(width, height, stone_tile)`.
    pub open spec fn staircase_view(width: u32, height: u32, stone_tile: u32) -> TemplateView {
        TemplateView::of_cells(
            "Staircase"@,
            width as nat,
            height as nat,
            |x: int, y: int| staircase_cell(x, y, stone_tile),
        )
    }

    /// The model of `room(width, height, wall_tile, floor_tile)`.
    pub open spec fn room_view(width: u32, height: u32, wall_tile: u32, floor_tile: u32) -> TemplateView {
        TemplateView::of_cells(
            "Room"@,
            width as nat,
            height as nat,
            |x: int, y: int| room_cell(x, y, width as int, height as int, wall_tile, floor_tile),
        )
    }

    /// The model of `bridge(width, platform_tile, support_tile)`.
    pub open spec fn bridge_view(width: u32, platform_tile: u32, support_tile: u32) -> TemplateView {
        TemplateView::of_cells(
            "Bridge"@,
            width as nat,
            3,
            |x: int, y: int| bridge_cell(x, y, width as int, platform_tile, support_tile),
        )
    }

    /// The model of `tower(width, height, wall_tile, floor_tile)`.
    pub open spec fn tower_view(width: u32, height: u32, wall_tile: u32, floor_tile: u32) -> TemplateView {
        TemplateView::of_cells(
            "Tower"@,
            width as nat,
            height as nat,
            |x: int, y: int| tower_cell(x, y, width as int, height as int, wall_tile, floor_tile),
        )
    }

    /// The model of `pit(width, depth, wall_tile)`.
    pub open spec fn pit_view(width: u32, depth: u32, wall_tile: u32) -> TemplateView {
        TemplateView::of_cells(
            "Pit"@,
            width as nat,
            depth as nat,
            |x: int, y: int| pit_cell(x, y, width as int, depth as int, wall_tile),
        )
    }

    /// The model of `garden(width, height, grass_tile, flower_tile, tree_tile)`.
    pub open spec fn garden_view(
        width: u32,
        height: u32,
        grass_tile: u32,
        flower_tile: u32,
        tree_tile: u32,
    ) -> TemplateView {
        TemplateView::of_cells(
            "Garden"@,
            width as nat,
            height as nat,
            |x: int, y: int|
                garden_cell(x, y, width as int, height as int, grass_tile, flower_tile, tree_tile),
        )
    }

    /// The model of `cave_entrance(width, height, stone_tile)`.
    pub open spec fn cave_entrance_view(width: u32, height: u32, stone_tile: u32) -> TemplateView {
        TemplateView::of_cells(
            "Cave Entrance"@,
            width as nat,
            height as nat,
            |x: int, y: int| cave_cell(x, y, width as int, height as int, stone_tile),
        )
    }

    /// A strip of ground, two rows high: `grass_tile` on top of `stone_tile`.
    pub fn ground_platform(width: u32, grass_tile: u32, stone_tile: u32) -> (template: LevelTemplate)
        ensures
            template@ == LevelTemplate::ground_platform_view(width, grass_tile, stone_tile),
            template.well_formed(),
    {
        let cell = |x: u32, y: u32| -> (tile: u32)
            ensures
                tile == ground_cell(y as int, grass_tile, stone_tile),
            {
                if y == 0 {
                    grass_tile
                } else {
                    stone_tile
                }
            };
        let pattern = build_grid(
            width,
            2,
            cell,
            Ghost(|x: int, y: int| ground_cell(y, grass_tile, stone_tile)),
        );
        LevelTemplate { name: "Ground Platform".to_owned(), pattern, width, height: 2 }
    }

    /// A platform one row high, all `platform_tile`.
    pub fn floating_platform(width: u32, platform_tile: u32) -> (template: LevelTemplate)
        ensures
            template@ == LevelTemplate::floating_platform_view(width, platform_tile),
            template.well_formed(),
    {
        let cell = |x: u32, y: u32| -> (tile: u32)
            ensures
                tile == platform_tile,
            { platform_tile };
        let pattern = build_grid(width, 1, cell, Ghost(|x: int, y: int| platform_tile));
        LevelTemplate { name: "Floating Platform".to_owned(), pattern, width, height: 1 }
    }

    /// A pillar one column wide, all `stone_tile`.
    pub fn pillar(height: u32, stone_tile: u32) -> (template: LevelTemplate)
        ensures
            template@ == LevelTemplate::pillar_view(height, stone_tile),
            template.well_formed(),
    {
        let cell = |x: u32, y: u32| -> (tile: u32)
            ensures
                tile == stone_tile,
            { stone_tile };
        let pattern = build_grid(1, height, cell, Ghost(|x: int, y: int| stone_tile));
        LevelTemplate { name: "Stone Pillar".to_owned(), pattern, width: 1, height }
    }

    /// A staircase that descends to the right: the cell `(x, y)` is
    /// `stone_tile` when `x >= y`, and empty otherwise.
    pub fn staircase(width: u32, height: u32, stone_tile: u32) -> (template: LevelTemplate)
        ensures
            template@ == LevelTemplate::staircase_view(width, height, stone_tile),
            template.well_formed(),
    {
        let cell = |x: u32, y: u32| -> (tile: u32)
            ensures
                tile == staircase_cell(x as int, y as int, stone_tile),
            {
                if x >= y {
                    stone_tile
                } else {
                    EMPTY_TILE
                }
            };
        let pattern = build_grid(
            width,
            height,
            cell,
            Ghost(|x: int, y: int| staircase_cell(x, y, stone_tile)),
        );
        LevelTemplate { name: "Staircase".to_owned(), pattern, width, height }
    }

    /// A room: walls left, right and on top, a floor at the bottom, empty
    /// inside.
    pub fn room(width: u32, height: u32, wall_tile: u32, floor_tile: u32) -> (template: LevelTemplate)
        requires
            (width == 0) == (height == 0),
        ensures
            template@ == LevelTemplate::room_view(width, height, wall_tile, floor_tile),
            template.well_formed(),
    {
        let cell = |x: u32, y: u32| -> (tile: u32)
            requires
                x < width,
                y < height,
            ensures
                tile == room_cell(x as int, y as int, width as int, height as int, wall_tile, floor_tile),
            {
                if x == 0 || x == width - 1 {
                    wall_tile
                } else if y == height - 1 {
                    floor_tile
                } else if y == 0 {
                    wall_tile
                } else {
                    EMPTY_TILE
                }
            };
        let pattern = build_grid(
            width,
            height,
            cell,
            Ghost(
                |x: int, y: int| room_cell(x, y, width as int, height as int, wall_tile, floor_tile),
            ),
        );
        LevelTemplate { name: "Room".to_owned(), pattern, width, height }
    }

    /// A bridge three rows high: a deck of `platform_tile` on two supports
    /// of `support_tile` at its ends.
    pub fn bridge(width: u32, platform_tile: u32, support_tile: u32) -> (template: LevelTemplate)
        requires
            width >= 1,
        ensures
            template@ == LevelTemplate::bridge_view(width, platform_tile, support_tile),
            template.well_formed(),
    {
        let cell = |x: u32, y: u32| -> (tile: u32)
            ensures
                tile == bridge_cell(x as int, y as int, width as int, platform_tile, support_tile),
            {
                if y == 0 {
                    platform_tile
                } else if x == 0 || x == width - 1 {
                    support_tile
                } else {
                    EMPTY_TILE
                }
            };
        let pattern = build_grid(
            width,
            3,
            cell,
            Ghost(|x: int, y: int| bridge_cell(x, y, width as int, platform_tile, support_tile)),
        );
        LevelTemplate { name: "Bridge".to_owned(), pattern, width, height: 3 }
    }

    /// A tower: two walls, a floor between them in rows 3, 7, 11 and so on,
    /// and a base of `floor_tile` over the whole width.
    pub fn tower(width: u32, height: u32, wall_tile: u32, floor_tile: u32) -> (template: LevelTemplate)
        requires
            (width == 0) == (height == 0),
        ensures
            template@ == LevelTemplate::tower_view(width, height, wall_tile, floor_tile),
            template.well_formed(),
    {
        let cell = |x: u32, y: u32| -> (tile: u32)
            requires
                x < width,
                y < height,
            ensures
                tile == tower_cell(x as int, y as int, width as int, height as int, wall_tile, floor_tile),
            {
                if y == height - 1 {
                    floor_tile
                } else if x == 0 || x == width - 1 {
                    wall_tile
                } else if y % 4 == 3 {
                    floor_tile
                } else {
                    EMPTY_TILE
                }
            };
        let pattern = build_grid(
            width,
            height,
            cell,
            Ghost(
                |x: int, y: int| tower_cell(x, y, width as int, height as int, wall_tile, floor_tile),
            ),
        );
        LevelTemplate { name: "Tower".to_owned(), pattern, width, height }
    }

    /// A pit: walls left and right and a bottom, all `wall_tile`.
    pub fn pit(width: u32, depth: u32, wall_tile: u32) -> (template: LevelTemplate)
        requires
            (width == 0) == (depth == 0),
        ensures
            template@ == LevelTemplate::pit_view(width, depth, wall_tile),
            template.well_formed(),
    {
        let cell = |x: u32, y: u32| -> (tile: u32)
            requires
                x < width,
                y < depth,
            ensures
                tile == pit_cell(x as int, y as int, width as int, depth as int, wall_tile),
            {
                if x == 0 || x == width - 1 || y == depth - 1 {
                    wall_tile
                } else {
                    EMPTY_TILE
                }
            };
        let pattern = build_grid(
            width,
            depth,
            cell,
            Ghost(|x: int, y: int| pit_cell(x, y, width as int, depth as int, wall_tile)),
        );
        LevelTemplate { name: "Pit".to_owned(), pattern, width, height: depth }
    }

    /// A garden: grass with flowers strewn over every row but the last, and
    /// two trees in the top row when there is room for them.
    pub fn garden(width: u32, height: u32, grass_tile: u32, flower_tile: u32, tree_tile: u32) -> (template:
        LevelTemplate)
        requires
            height >= 1,
        ensures
            template@ == LevelTemplate::garden_view(width, height, grass_tile, flower_tile, tree_tile),
            template.well_formed(),
    {
        let cell = |x: u32, y: u32| -> (tile: u32)
            requires
                x < width,
            ensures
                tile == garden_cell(
                    x as int,
                    y as int,
                    width as int,
                    height as int,
                    grass_tile,
                    flower_tile,
                    tree_tile,
                ),
            {
                if width > 2 && height > 2 && y == 0 && (x == 1 || x == width - 2) {
                    tree_tile
                } else if y < height - 1 && (x as u64 + y as u64) % 3 == 0 {
                    flower_tile
                } else {
                    grass_tile
                }
            };
        let pattern = build_grid(
            width,
            height,
            cell,
            Ghost(
                |x: int, y: int|
                    garden_cell(x, y, width as int, height as int, grass_tile, flower_tile, tree_tile),
            ),
        );
        LevelTemplate { name: "Garden".to_owned(), pattern, width, height }
    }

    /// A cave entrance: `stone_tile` with a round opening around the middle.
    pub fn cave_entrance(width: u32, height: u32, stone_tile: u32) -> (template: LevelTemplate)
        ensures
            template@ == LevelTemplate::cave_entrance_view(width, height, stone_tile),
            template.well_formed(),
    {
        let center_x: u32 = width / 2;
        let center_y: u32 = height / 2;
        let radius: u32 = if center_x < center_y {
            center_x
        } else {
            center_y
        };
        let cell = |x: u32, y: u32| -> (tile: u32)
            ensures
                tile == cave_cell(x as int, y as int, width as int, height as int, stone_tile),
            {
                let dx: u64 = if x >= center_x {
                    (x - center_x) as u64
                } else {
                    (center_x - x) as u64
                };
                let dy: u64 = if y >= center_y {
                    (y - center_y) as u64
                } else {
                    (center_y - y) as u64
                };
                assert(dx * dx <= 0xFFFF_FFFF * 0xFFFF_FFFF) by (nonlinear_arith)
                    requires
                        dx <= 0xFFFF_FFFF,
                ;
                assert(dy * dy <= 0xFFFF_FFFF * 0xFFFF_FFFF) by (nonlinear_arith)
                    requires
                        dy <= 0xFFFF_FFFF,
                ;
                assert(radius * radius <= 0xFFFF_FFFF * 0xFFFF_FFFF) by (nonlinear_arith)
                    requires
                        radius <= 0xFFFF_FFFF,
                ;
                assert(dx * dx == (x as int - center_x as int) * (x as int - center_x as int))
                    by (nonlinear_arith)
                    requires
                        dx == x as int - center_x as int || dx == center_x as int - x as int,
                ;
                assert(dy * dy == (y as int - center_y as int) * (y as int - center_y as int))
                    by (nonlinear_arith)
                    requires
                        dy == y as int - center_y as int || dy == center_y as int - y as int,
                ;
                let distance: u128 = (dx * dx) as u128 + (dy * dy) as u128;
                let limit: u128 = (radius as u64 * radius as u64) as u128;
                if distance > limit {
                    stone_tile
                } else {
                    EMPTY_TILE
                }
            };
        let pattern = build_grid(
            width,
            height,
            cell,
            Ghost(|x: int, y: int| cave_cell(x, y, width as int, height as int, stone_tile)),
        );
        LevelTemplate { name: "Cave Entrance".to_owned(), pattern, width, height }
    }
}

} // verus!
