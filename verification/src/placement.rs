//! Placing templates into a level: the bounds check, the transparent empty
//! cells, the positions where a template fits, and levels made of templates.

use vstd::prelude::*;
use vstd::string::StringExecFns;
use crate::constants::EMPTY_TILE;
use crate::level::{LevelData, LevelView};
use crate::templates::{LevelTemplate, TemplateView};
use crate::text::{decimal, push_decimal, unlines, lemma_unlines_push};

verus! {

// ---------------------------------------------------------------------------
// What placing a template means
// ---------------------------------------------------------------------------

/// Whether the template, placed with its top left cell at `(x, y)`, lies
/// within the level.
pub open spec fn placement_fits(level: LevelView, template: TemplateView, x: int, y: int) -> bool {
    x + template.width <= level.width && y + template.height <= level.height
}

/// Whether the template, placed at `(x, y)`, writes the cell `(gx, gy)`: the
/// cell lies under the template, and the pattern is not empty there.
pub open spec fn template_covers(template: TemplateView, x: int, y: int, gx: int, gy: int) -> bool {
    &&& x <= gx < x + template.width
    &&& y <= gy < y + template.height
    &&& template.pattern[gy - y][gx - x] != EMPTY_TILE
}

/// The tile at `(gx, gy)` after the template was placed at `(x, y)`.
pub open spec fn placed_tile(level: LevelView, template: TemplateView, x: int, y: int, gx: int, gy: int) -> u32 {
    if template_covers(template, x, y, gx, gy) {
        template.pattern[gy - y][gx - x]
    } else {
        level.tile(gx, gy)
    }
}

/// The level after an attempt to place the template at `(x, y)`: unchanged
/// when the template does not fit.
pub open spec fn placed(level: LevelView, template: TemplateView, x: int, y: int) -> LevelView {
    if placement_fits(level, template, x, y) {
        LevelView {
            rows: Seq::new(
                level.height,
                |gy: int| Seq::new(level.width, |gx: int| placed_tile(level, template, x, y, gx, gy)),
            ),
            ..level
        }
    } else {
        level
    }
}

/// The level after attempts to place each of `placements` in turn.
pub open spec fn placed_all(level: LevelView, placements: Seq<(TemplateView, int, int)>) -> LevelView
    decreases placements.len(),
{
    if placements.len() == 0 {
        level
    } else {
        let last = placements.last();
        placed(placed_all(level, placements.drop_last()), last.0, last.1, last.2)
    }
}

/// The model of a list of placements.
pub open spec fn placements_view(templates: Seq<(LevelTemplate, u32, u32)>) -> Seq<(TemplateView, int, int)> {
    templates.map_values(|p: (LevelTemplate, u32, u32)| (p.0@, p.1 as int, p.2 as int))
}

/// Placing keeps the level's size and shape.
pub proof fn lemma_placed_shape(level: LevelView, template: TemplateView, x: int, y: int)
    requires
        level.well_formed(),
    ensures
        placed(level, template, x, y).well_formed(),
        placed(level, template, x, y).width == level.width,
        placed(level, template, x, y).height == level.height,
{
}

/// Placing several templates keeps the level's size and shape.
pub proof fn lemma_placed_all_shape(level: LevelView, placements: Seq<(TemplateView, int, int)>)
    requires
        level.well_formed(),
    ensures
        placed_all(level, placements).well_formed(),
        placed_all(level, placements).width == level.width,
        placed_all(level, placements).height == level.height,
    decreases placements.len(),
{
    if placements.len() > 0 {
        lemma_placed_all_shape(level, placements.drop_last());
        let last = placements.last();
        lemma_placed_shape(placed_all(level, placements.drop_last()), last.0, last.1, last.2);
    }
}

/// A transparent cell of the template leaves the level's tile as it was,
/// wherever the template is placed.
pub proof fn lemma_placement_transparent(
    level: LevelView,
    template: TemplateView,
    x: int,
    y: int,
    px: int,
    py: int,
)
    requires
        level.well_formed(),
        template.well_formed(),
        0 <= x,
        0 <= y,
        0 <= px < template.width,
        0 <= py < template.height,
        placement_fits(level, template, x, y),
        template.pattern[py][px] == EMPTY_TILE,
    ensures
        placed(level, template, x, y).tile(x + px, y + py) == level.tile(x + px, y + py),
{
}

// ---------------------------------------------------------------------------
// Placing
// ---------------------------------------------------------------------------

/// Whether the template, placed at `(x, y)`, lies within the level.
pub fn validate_template_placement(level_data: &LevelData, template: &LevelTemplate, x: u32, y: u32) -> (fits:
    bool)
    ensures
        fits == placement_fits(level_data@, template@, x as int, y as int),
{
    x as u64 + template.width as u64 <= level_data.width as u64 && y as u64 + template.height as u64
        <= level_data.height as u64
}

/// Places the template with its top left cell at `(start_x, start_y)`.
///
/// When the template does not lie within the level, nothing changes and the
/// answer is `false`. Otherwise every cell of the pattern that is not empty
/// overwrites the tile under it, every other tile stays, and the answer is
/// `true`.
pub fn place_template(level_data: &mut LevelData, template: &LevelTemplate, start_x: u32, start_y: u32) -> (done:
    bool)
    requires
        old(level_data).well_formed(),
        template.well_formed(),
    ensures
        done == placement_fits(old(level_data)@, template@, start_x as int, start_y as int),
        final(level_data)@ == placed(old(level_data)@, template@, start_x as int, start_y as int),
        !done ==> final(level_data)@ == old(level_data)@,
        forall|px: int, py: int|
            done && 0 <= px < template.width && 0 <= py < template.height
                && #[trigger] template@.pattern[py][px] == EMPTY_TILE ==> final(level_data)@.tile(
                start_x + px,
                start_y + py,
            ) == old(level_data)@.tile(start_x + px, start_y + py),
        final(level_data).well_formed(),
{
    if !validate_template_placement(level_data, template, start_x, start_y) {
        return false;
    }
    let ghost before = level_data@;
    let ghost shape = template@;
    let ghost sx = start_x as int;
    let ghost sy = start_y as int;
    proof {
        level_data.lemma_well_formed_view();
    }
    let mut py: u32 = 0;
    while py < template.height
        invariant
            py <= template.height,
            template.well_formed(),
            shape == template@,
            before == old(level_data)@,
            before.well_formed(),
            sx == start_x as int,
            sy == start_y as int,
            placement_fits(before, shape, sx, sy),
            level_data.well_formed(),
            level_data.width == before.width,
            level_data.height == before.height,
            forall|gx: int, gy: int|
                0 <= gx < before.width && 0 <= gy < before.height ==> #[trigger] level_data@.tile(gx, gy)
                    == if gy < sy + py {
                    placed_tile(before, shape, sx, sy, gx, gy)
                } else {
                    before.tile(gx, gy)
                },
        decreases template.height - py,
    {
        let mut px: u32 = 0;
        while px < template.width
            invariant
                px <= template.width,
                py < template.height,
                template.well_formed(),
                shape == template@,
                before == old(level_data)@,
                before.well_formed(),
                sx == start_x as int,
                sy == start_y as int,
                placement_fits(before, shape, sx, sy),
                level_data.well_formed(),
                level_data.width == before.width,
                level_data.height == before.height,
                forall|gx: int, gy: int|
                    0 <= gx < before.width && 0 <= gy < before.height ==> #[trigger] level_data@.tile(
                        gx,
                        gy,
                    ) == if gy < sy + py || (gy == sy + py && gx < sx + px) {
                        placed_tile(before, shape, sx, sy, gx, gy)
                    } else {
                        before.tile(gx, gy)
                    },
            decreases template.width - px,
        {
            let tile = template.pattern[py as usize][px as usize];
            assert(shape.pattern[py as int] == template.pattern@[py as int]@);
            if tile != EMPTY_TILE {
                let ghost prior = level_data@;
                let done = level_data.set(start_x + px, start_y + py, tile);
                proof {
                    level_data.lemma_well_formed_view();
                    assert forall|gx: int, gy: int|
                        0 <= gx < before.width && 0 <= gy < before.height implies #[trigger] level_data@.tile(
                        gx,
                        gy,
                    ) == if gy < sy + py || (gy == sy + py && gx < sx + px + 1) {
                        placed_tile(before, shape, sx, sy, gx, gy)
                    } else {
                        before.tile(gx, gy)
                    } by {
                        assert(prior.tile(gx, gy) == if gy < sy + py || (gy == sy + py && gx < sx + px) {
                            placed_tile(before, shape, sx, sy, gx, gy)
                        } else {
                            before.tile(gx, gy)
                        });
                    }
                }
            }
            px = px + 1;
        }
        py = py + 1;
    }
    proof {
        let after = placed(before, shape, sx, sy);
        level_data.lemma_well_formed_view();
        assert forall|gy: int| 0 <= gy < after.rows.len() implies level_data@.rows[gy] == after.rows[gy] by {
            assert forall|gx: int| 0 <= gx < before.width implies level_data@.rows[gy][gx]
                == after.rows[gy][gx] by {
                assert(level_data@.tile(gx, gy) == level_data@.rows[gy][gx]);
            }
            assert(level_data@.rows[gy].len() == before.width);
            assert(level_data@.rows[gy] =~= after.rows[gy]);
        }
        assert(level_data@.rows =~= after.rows);
    }
    true
}

/// Places each of `templates` in turn, each at its own position, and tells
/// for each whether it was placed.
pub fn place_templates(level_data: &mut LevelData, templates: &[(LevelTemplate, u32, u32)]) -> (done: Vec<bool>)
    requires
        old(level_data).well_formed(),
        forall|i: int| 0 <= i < templates@.len() ==> (#[trigger] templates@[i]).0.well_formed(),
    ensures
        final(level_data)@ == placed_all(old(level_data)@, placements_view(templates@)),
        final(level_data).well_formed(),
        done@.len() == templates@.len(),
        forall|i: int|
            0 <= i < templates@.len() ==> #[trigger] done@[i] == placement_fits(
                old(level_data)@,
                templates@[i].0@,
                templates@[i].1 as int,
                templates@[i].2 as int,
            ),
{
    let ghost before = level_data@;
    let ghost all = placements_view(templates@);
    let mut done: Vec<bool> = Vec::new();
    let mut i: usize = 0;
    proof {
        level_data.lemma_well_formed_view();
        assert(all.take(0) =~= Seq::<(TemplateView, int, int)>::empty());
    }
    while i < templates.len()
        invariant
            i <= templates@.len(),
            before == old(level_data)@,
            before.well_formed(),
            all == placements_view(templates@),
            forall|k: int| 0 <= k < templates@.len() ==> (#[trigger] templates@[k]).0.well_formed(),
            level_data.well_formed(),
            level_data@ == placed_all(before, all.take(i as int)),
            level_data@.width == before.width,
            level_data@.height == before.height,
            done@.len() == i,
            forall|k: int|
                0 <= k < i ==> #[trigger] done@[k] == placement_fits(
                    before,
                    templates@[k].0@,
                    templates@[k].1 as int,
                    templates@[k].2 as int,
                ),
        decreases templates@.len() - i,
    {
        let placement = &templates[i];
        proof {
            assert(all.take(i + 1).drop_last() =~= all.take(i as int));
            assert(all.take(i + 1).last() == (placement.0@, placement.1 as int, placement.2 as int));
            level_data.lemma_well_formed_view();
            lemma_placed_shape(level_data@, placement.0@, placement.1 as int, placement.2 as int);
        }
        let fits = place_template(level_data, &placement.0, placement.1, placement.2);
        done.push(fits);
        i = i + 1;
    }
    assert(all.take(templates@.len() as int) =~= all);
    done
}

// ---------------------------------------------------------------------------
// Where a template fits
// ---------------------------------------------------------------------------

/// How many of the positions `0 .. extent` leave room for `size` cells
/// before `extent` ends.
pub open spec fn fitting_count(extent: nat, size: nat) -> nat {
    if size > extent {
        0
    } else if size == 0 {
        extent
    } else {
        (extent - size + 1) as nat
    }
}

/// The positions at which the template lies within the level, row by row
/// from the top, each row from the left.
pub open spec fn valid_positions(level: LevelView, template: TemplateView) -> Seq<(u32, u32)> {
    let columns = fitting_count(level.width, template.width);
    let rows = fitting_count(level.height, template.height);
    Seq::new(columns * rows, |i: int| ((i % columns as int) as u32, (i / columns as int) as u32))
}

/// Whether `(x, y)` is a cell of the level at which the template can be
/// placed.
pub open spec fn is_valid_position(level: LevelView, template: TemplateView, x: u32, y: u32) -> bool {
    x < level.width && y < level.height && placement_fits(level, template, x as int, y as int)
}

/// All positions in the level at which the template can be placed, row by
/// row from the top, each row from the left.
pub fn get_valid_positions(level_data: &LevelData, template: &LevelTemplate) -> (positions: Vec<(u32, u32)>)
    ensures
        positions@ == valid_positions(level_data@, template@),
        forall|x: u32, y: u32| #[trigger]
            positions@.contains((x, y)) <==> is_valid_position(level_data@, template@, x, y),
{
    let ghost columns = fitting_count(level_data.width as nat, template.width as nat) as int;
    let ghost rows = fitting_count(level_data.height as nat, template.height as nat) as int;
    let ghost wanted = valid_positions(level_data@, template@);
    let mut positions: Vec<(u32, u32)> = Vec::new();
    let mut y: u32 = 0;
    while y < level_data.height
        invariant
            y <= level_data.height,
            columns == fitting_count(level_data.width as nat, template.width as nat),
            rows == fitting_count(level_data.height as nat, template.height as nat),
            wanted == valid_positions(level_data@, template@),
            positions@.len() == columns * (if y < rows { y as int } else { rows }),
            forall|i: int| 0 <= i < positions@.len() ==> #[trigger] positions@[i] == wanted[i],
        decreases level_data.height - y,
    {
        let ghost start = positions@.len() as int;
        let row_fits = y as u64 + template.height as u64 <= level_data.height as u64;
        assert(row_fits == (y < rows));
        let mut x: u32 = 0;
        while x < level_data.width
            invariant
                x <= level_data.width,
                y < level_data.height,
                columns == fitting_count(level_data.width as nat, template.width as nat),
                rows == fitting_count(level_data.height as nat, template.height as nat),
                wanted == valid_positions(level_data@, template@),
                row_fits == (y < rows),
                start == columns * (if y < rows { y as int } else { rows }),
                positions@.len() == start + (if row_fits { if x < columns { x as int } else { columns } } else { 0 }),
                forall|i: int| 0 <= i < positions@.len() ==> #[trigger] positions@[i] == wanted[i],
            decreases level_data.width - x,
        {
            if row_fits && x as u64 + template.width as u64 <= level_data.width as u64 {
                proof {
                    let i = positions@.len() as int;
                    assert(x < columns);
                    assert(i == columns * y + x);
                    lemma_cell_index(columns, rows, x as int, y as int);
                    assert(wanted[i] == (x, y));
                }
                positions.push((x, y));
            }
            x = x + 1;
        }
        proof {
            if row_fits {
                assert(columns * (y + 1) == columns * y + columns) by (nonlinear_arith);
            }
        }
        y = y + 1;
    }
    proof {
        assert(positions@.len() == columns * rows);
        assert(positions@ =~= wanted);
        assert forall|x: u32, y: u32| #[trigger]
            positions@.contains((x, y)) <==> is_valid_position(level_data@, template@, x, y) by {
            if is_valid_position(level_data@, template@, x, y) {
                lemma_cell_index(columns, rows, x as int, y as int);
                assert(wanted[columns * y + x] == (x, y));
            }
            if positions@.contains((x, y)) {
                let i = choose|i: int| 0 <= i < wanted.len() && wanted[i] == (x, y);
                lemma_index_cell(columns, rows, i);
            }
        }
    }
    positions
}

/// The cell `(x, y)` of a table with `columns` columns is entry
/// `columns * y + x` of the table read row by row.
pub proof fn lemma_cell_index(columns: int, rows: int, x: int, y: int)
    requires
        0 <= x < columns,
        0 <= y < rows,
    ensures
        0 <= columns * y + x < columns * rows,
        (columns * y + x) % columns == x,
        (columns * y + x) / columns == y,
{
    assert(columns * y + x < columns * rows) by (nonlinear_arith)
        requires
            0 <= x < columns,
            0 <= y < rows,
    ;
    assert(0 <= columns * y) by (nonlinear_arith)
        requires
            0 <= y,
            0 < columns,
    ;
    vstd::arithmetic::div_mod::lemma_fundamental_div_mod_converse(columns * y + x, columns, y, x);
}

/// Entry `i` of a table read row by row names a cell of the table.
pub proof fn lemma_index_cell(columns: int, rows: int, i: int)
    requires
        0 <= i < columns * rows,
        0 < columns,
    ensures
        0 <= i % columns < columns,
        0 <= i / columns < rows,
{
    vstd::arithmetic::div_mod::lemma_fundamental_div_mod(i, columns);
    vstd::arithmetic::div_mod::lemma_mod_bound(i, columns);
    let q = i / columns;
    let r = i % columns;
    assert(q < rows) by (nonlinear_arith)
        requires
            i == columns * q + r,
            0 <= r < columns,
            i < columns * rows,
            0 < columns,
    ;
    assert(q >= 0) by (nonlinear_arith)
        requires
            i == columns * q + r,
            0 <= r < columns,
            0 <= i,
            0 < columns,
    ;
}

// ---------------------------------------------------------------------------
// Levels made of templates
// ---------------------------------------------------------------------------

/// The models of the common templates, in the order in which
/// `create_common_templates` lists them.
pub open spec fn common_templates() -> Seq<TemplateView> {
    seq![
        LevelTemplate::ground_platform_view(10, 180, 176),
        LevelTemplate::floating_platform_view(5, 181),
        LevelTemplate::pillar_view(6, 176),
        LevelTemplate::staircase_view(5, 5, 176),
        LevelTemplate::room_view(8, 6, 176, 180),
        LevelTemplate::bridge_view(8, 181, 176),
        LevelTemplate::tower_view(4, 12, 176, 180),
        LevelTemplate::pit_view(4, 3, 176),
        LevelTemplate::garden_view(6, 4, 180, 183, 185),
        LevelTemplate::cave_entrance_view(6, 6, 176),
    ]
}

/// One template of each kind, in common sizes and with the usual tiles:
/// grass 180, stone 176, platform 181, flower 183, tree 185.
pub fn create_common_templates() -> (templates: Vec<LevelTemplate>)
    ensures
        templates@.len() == 10,
        templates@.map_values(|t: LevelTemplate| t@) == common_templates(),
        forall|i: int| 0 <= i < templates@.len() ==> (#[trigger] templates@[i]).well_formed(),
{
    let mut templates: Vec<LevelTemplate> = Vec::new();
    templates.push(LevelTemplate::ground_platform(10, 180, 176));
    templates.push(LevelTemplate::floating_platform(5, 181));
    templates.push(LevelTemplate::pillar(6, 176));
    templates.push(LevelTemplate::staircase(5, 5, 176));
    templates.push(LevelTemplate::room(8, 6, 176, 180));
    templates.push(LevelTemplate::bridge(8, 181, 176));
    templates.push(LevelTemplate::tower(4, 12, 176, 180));
    templates.push(LevelTemplate::pit(4, 3, 176));
    templates.push(LevelTemplate::garden(6, 4, 180, 183, 185));
    templates.push(LevelTemplate::cave_entrance(6, 6, 176));
    assert(templates@.map_values(|t: LevelTemplate| t@) =~= common_templates());
    templates
}

/// The strips of ground of a template level: one every ten columns along the
/// two bottom rows, from the left edge on.
pub open spec fn ground_placements(width: nat, height: nat) -> Seq<(TemplateView, int, int)> {
    Seq::new(
        (width + 9) / 10,
        |i: int| (LevelTemplate::ground_platform_view(10, 180, 176), 10 * i, height - 2),
    )
}

/// The placements of a template level, in order: the ground, three floating
/// platforms, two pillars and a room.
pub open spec fn template_level_placements(width: nat, height: nat) -> Seq<(TemplateView, int, int)> {
    let platform = LevelTemplate::floating_platform_view(5, 181);
    let pillar = LevelTemplate::pillar_view(6, 176);
    let room = LevelTemplate::room_view(8, 6, 176, 180);
    ground_placements(width, height) + seq![
        (platform, 10int, height - 8),
        (platform, 20int, height - 12),
        (platform, 30int, height - 6),
        (pillar, 5int, height - 8),
        (pillar, 35int, height - 8),
        (room, width - 10, height - 8),
    ]
}

/// Placing one more template is placing it on what the others made.
proof fn lemma_placed_all_push(level: LevelView, placements: Seq<(TemplateView, int, int)>, next: (TemplateView, int, int))
    ensures
        placed_all(level, placements.push(next)) == placed(
            placed_all(level, placements),
            next.0,
            next.1,
            next.2,
        ),
{
    assert(placements.push(next).drop_last() =~= placements);
}

/// A sample level of the given size, made of the common templates: ground
/// along the bottom, three floating platforms, two pillars and a room near
/// the right edge. A template that does not lie within the level is left out.
pub fn create_template_level(width: u32, height: u32) -> (level: LevelData)
    requires
        width >= 10,
        height >= 12,
    ensures
        level@ == placed_all(
            LevelView::blank(width as nat, height as nat),
            template_level_placements(width as nat, height as nat),
        ),
        level.well_formed(),
{
    let mut level = LevelData::filled(width, height, EMPTY_TILE);
    let templates = create_common_templates();
    let ghost blank = LevelView::blank(width as nat, height as nat);
    let ghost models = common_templates();
    let ghost ground = ground_placements(width as nat, height as nat);
    proof {
        let views = templates@.map_values(|t: LevelTemplate| t@);
        assert(views[0] == templates@[0]@);
        assert(views[1] == templates@[1]@);
        assert(views[2] == templates@[2]@);
        assert(views[4] == templates@[4]@);
    }
    let mut x: u64 = 0;
    let ghost mut made = Seq::<(TemplateView, int, int)>::empty();
    proof {
        level.lemma_well_formed_view();
        assert(ground.take(0) =~= made);
    }
    let mut i: u64 = 0;
    while x < width as u64
        invariant
            x == 10 * i,
            i <= (width + 9) / 10,
            models == common_templates(),
            models[0] == templates@[0]@,
            x <= width as u64 + 9,
            forall|k: int| 0 <= k < templates@.len() ==> (#[trigger] templates@[k]).well_formed(),
            templates@.len() == 10,
            ground == ground_placements(width as nat, height as nat),
            blank == LevelView::blank(width as nat, height as nat),
            blank.well_formed(),
            made == ground.take(i as int),
            level@ == placed_all(blank, made),
            level.well_formed(),
            height >= 12,
        decreases width as u64 + 10 - x,
    {
        let ghost next = (models[0], x as int, height - 2);
        proof {
            assert(ground[i as int] == next);
            lemma_placed_all_push(blank, made, next);
            assert(ground.take(i + 1) =~= made.push(next));
            made = made.push(next);
        }
        let placed_here = if x <= u32::MAX as u64 {
            place_template(&mut level, &templates[0], x as u32, height - 2)
        } else {
            false
        };
        x = x + 10;
        i = i + 1;
    }
    proof {
        assert(i == (width + 9) / 10);
        assert(ground.take(i as int) =~= ground);
    }
    let ghost steps = template_level_placements(width as nat, height as nat);
    proof {
        assert(steps.take(ground.len() as int) =~= ground);
    }
    place_next(&mut level, &templates[1], 10, height - 8, Ghost(blank), Ghost(steps), Ghost(ground.len()));
    place_next(&mut level, &templates[1], 20, height - 12, Ghost(blank), Ghost(steps), Ghost(ground.len() + 1));
    place_next(&mut level, &templates[1], 30, height - 6, Ghost(blank), Ghost(steps), Ghost(ground.len() + 2));
    place_next(&mut level, &templates[2], 5, height - 8, Ghost(blank), Ghost(steps), Ghost(ground.len() + 3));
    place_next(&mut level, &templates[2], 35, height - 8, Ghost(blank), Ghost(steps), Ghost(ground.len() + 4));
    place_next(&mut level, &templates[4], width - 10, height - 8, Ghost(blank), Ghost(steps), Ghost(ground.len() + 5));
    assert(steps.take(steps.len() as int) =~= steps);
    level
}

/// Makes the placement number `done` of `steps`, on a level that the
/// placements before it made.
fn place_next(
    level: &mut LevelData,
    template: &LevelTemplate,
    x: u32,
    y: u32,
    Ghost(start): Ghost<LevelView>,
    Ghost(steps): Ghost<Seq<(TemplateView, int, int)>>,
    Ghost(done): Ghost<nat>,
)
    requires
        old(level).well_formed(),
        template.well_formed(),
        done < steps.len(),
        steps[done as int] == (template@, x as int, y as int),
        old(level)@ == placed_all(start, steps.take(done as int)),
    ensures
        final(level).well_formed(),
        final(level)@ == placed_all(start, steps.take(done as int + 1)),
{
    proof {
        lemma_placed_all_push(start, steps.take(done as int), steps[done as int]);
        assert(steps.take(done as int + 1) =~= steps.take(done as int).push(steps[done as int]));
    }
    let fits = place_template(level, template, x, y);
}

// ---------------------------------------------------------------------------
// A template as text
// ---------------------------------------------------------------------------

/// The character that previews a tile: `'.'` for the empty tile, a letter
/// for the usual grass, stone, platform, flower and tree tiles, and `'#'` for
/// any other.
pub open spec fn preview_char(tile: u32) -> char {
    if tile == 255 {
        '.'
    } else if tile == 180 {
        'G'
    } else if tile == 176 {
        'S'
    } else if tile == 181 {
        'P'
    } else if tile == 183 {
        'F'
    } else if tile == 185 {
        'T'
    } else {
        '#'
    }
}

/// The preview lines of a pattern: one character for each cell.
pub open spec fn preview_lines(pattern: Seq<Seq<u32>>) -> Seq<Seq<char>> {
    pattern.map_values(|row: Seq<u32>| row.map_values(|tile: u32| preview_char(tile)))
}

/// The first line of a template's preview, with its line feed.
pub open spec fn preview_heading(template: TemplateView) -> Seq<char> {
    "Template: "@ + template.name + " ("@ + decimal(template.width) + "x"@ + decimal(
        template.height,
    ) + ")\n"@
}

/// A template as text: a heading with its name and size, then its pattern.
pub open spec fn template_text(template: TemplateView) -> Seq<char> {
    preview_heading(template) + unlines(preview_lines(template.pattern))
}

/// The character that previews a tile.
fn preview_of(tile: u32) -> (symbol: char)
    ensures
        symbol == preview_char(tile),
{
    if tile == 255 {
        '.'
    } else if tile == 180 {
        'G'
    } else if tile == 176 {
        'S'
    } else if tile == 181 {
        'P'
    } else if tile == 183 {
        'F'
    } else if tile == 185 {
        'T'
    } else {
        '#'
    }
}

/// A preview of the template as text: its name and size on the first line,
/// then one line for each row of its pattern.
pub fn template_to_string(template: &LevelTemplate) -> (text: String)
    ensures
        text@ == template_text(template@),
{
    let mut text = "Template: ".to_owned();
    text.append(template.name.as_str());
    text.append(" (");
    push_decimal(&mut text, template.width as u64);
    text.append("x");
    push_decimal(&mut text, template.height as u64);
    text.append(")\n");
    let ghost heading = preview_heading(template@);
    let ghost lines = preview_lines(template@.pattern);
    proof {
        assert(text@ =~= heading);
        assert(lines.take(0) =~= Seq::<Seq<char>>::empty());
        assert(text@ =~= heading + unlines(lines.take(0)));
    }
    let mut y: usize = 0;
    while y < template.pattern.len()
        invariant
            y <= template.pattern@.len(),
            heading == preview_heading(template@),
            lines == preview_lines(template@.pattern),
            text@ == heading + unlines(lines.take(y as int)),
        decreases template.pattern@.len() - y,
    {
        let row = &template.pattern[y];
        let ghost line = row@.map_values(|tile: u32| preview_char(tile));
        let ghost start = text@;
        let mut x: usize = 0;
        while x < row.len()
            invariant
                x <= row@.len(),
                line == row@.map_values(|tile: u32| preview_char(tile)),
                text@ == start + line.take(x as int),
            decreases row@.len() - x,
        {
            text.push(preview_of(row[x]));
            x = x + 1;
            assert(text@ =~= start + line.take(x as int));
        }
        text.push('\n');
        proof {
            assert(line.take(row@.len() as int) =~= line);
            assert(template@.pattern[y as int] == row@);
            assert(lines[y as int] == line);
            lemma_unlines_push(lines.take(y as int), line);
            assert(lines.take(y as int).push(line) =~= lines.take(y + 1));
            assert(text@ =~= heading + unlines(lines.take(y + 1)));
        }
        y = y + 1;
    }
    assert(lines.take(template.pattern@.len() as int) =~= lines);
    text
}

} // verus!
