use tile_level::collision::{create_collision_map, ColliderKind};
use tile_level::csv::parse_level_text;
use tile_level::editor::{
    level_editor_input, level_editor_mouse, level_editor_save_load, place_tile_at_world_pos,
    reload_level, remove_tile_at_world_pos, spawn_editor_tile, toggle_level_editor, EditorEdit,
    EditorKeys, LevelEditor, PlacedTile,
};
use tile_level::error::LevelError;
use tile_level::level::LevelData;
use tile_level::tileset::{TilesetInfo, TilesetRegistry};

fn registry() -> TilesetRegistry {
    let mut registry = TilesetRegistry::new();
    registry.register(TilesetInfo {
        tile_size: 16,
        tiles_per_row: 16,
        tiles_per_column: 16,
        texture_handle: 1,
        layout_handle: 2,
    });
    registry
}

fn perform(world: &mut Vec<PlacedTile>, edit: &EditorEdit) {
    let mut kept = Vec::new();
    for (i, tile) in world.iter().enumerate() {
        if !edit.despawn.contains(&i) {
            kept.push(*tile);
        }
    }
    for spawn in &edit.spawn {
        kept.push(PlacedTile { world_x: spawn.world_x, world_y: spawn.world_y, index: spawn.tile.index });
    }
    *world = kept;
}

fn enabled_editor(tile: u32, brush: u32) -> LevelEditor {
    LevelEditor { enabled: true, current_tile: tile, brush_size: brush, show_ui: true }
}

#[test]
fn editor_starts_switched_off() {
    let editor = LevelEditor::default();
    assert_eq!(editor, LevelEditor { enabled: false, current_tile: 180, brush_size: 1, show_ui: true });
}

#[test]
fn toggle_switches_the_editor_and_shows_the_help() {
    let mut editor = LevelEditor::default();
    let mut keys = EditorKeys::none();
    assert!(!toggle_level_editor(&keys, &mut editor));
    assert_eq!(editor, LevelEditor::default());
    keys.toggle = true;
    assert!(toggle_level_editor(&keys, &mut editor));
    assert!(editor.enabled);
    assert!(!toggle_level_editor(&keys, &mut editor));
    assert!(!editor.enabled);
}

#[test]
fn panel_toggle_needs_the_editor_on() {
    let mut editor = LevelEditor::default();
    let mut keys = EditorKeys::none();
    keys.toggle_ui = true;
    toggle_level_editor(&keys, &mut editor);
    assert!(editor.show_ui);
    editor.enabled = true;
    toggle_level_editor(&keys, &mut editor);
    assert!(!editor.show_ui);
    toggle_level_editor(&keys, &mut editor);
    assert!(editor.show_ui);
    keys.toggle = true;
    toggle_level_editor(&keys, &mut editor);
    assert!(!editor.enabled);
    assert!(editor.show_ui);
}

#[test]
fn keys_are_ignored_while_the_editor_is_off() {
    let mut editor = LevelEditor::default();
    let mut keys = EditorKeys::none();
    keys.digits[2] = true;
    keys.brush_increase = true;
    level_editor_input(&keys, &mut editor);
    assert_eq!(editor, LevelEditor::default());
}

#[test]
fn tile_keys_select_from_the_palette() {
    let palette = [180, 176, 184, 181, 182, 183, 185, 187, 255];
    for (i, tile) in palette.iter().enumerate() {
        let mut editor = enabled_editor(1, 1);
        let mut keys = EditorKeys::none();
        keys.digits[i] = true;
        level_editor_input(&keys, &mut editor);
        assert_eq!(editor.current_tile, *tile);
    }
    let mut editor = enabled_editor(1, 1);
    let mut keys = EditorKeys::none();
    keys.digits[1] = true;
    keys.digits[5] = true;
    level_editor_input(&keys, &mut editor);
    assert_eq!(editor.current_tile, 183);
    level_editor_input(&EditorKeys::none(), &mut editor);
    assert_eq!(editor.current_tile, 183);
}

#[test]
fn toggle_key_in_the_input_handler() {
    let mut editor = LevelEditor::default();
    let mut keys = EditorKeys::none();
    keys.toggle = true;
    keys.digits[1] = true;
    level_editor_input(&keys, &mut editor);
    assert!(editor.enabled);
    assert_eq!(editor.current_tile, 176);
    keys.digits[2] = true;
    level_editor_input(&keys, &mut editor);
    assert!(!editor.enabled);
    assert_eq!(editor.current_tile, 176);
}

#[test]
fn brush_stays_within_one_and_five() {
    let mut editor = enabled_editor(180, 1);
    let mut smaller = EditorKeys::none();
    smaller.brush_decrease = true;
    let mut larger = EditorKeys::none();
    larger.brush_increase = true;
    level_editor_input(&smaller, &mut editor);
    assert_eq!(editor.brush_size, 1);
    for expected in [2, 3, 4, 5, 5, 5] {
        level_editor_input(&larger, &mut editor);
        assert_eq!(editor.brush_size, expected);
    }
    for expected in [4, 3, 2, 1, 1] {
        level_editor_input(&smaller, &mut editor);
        assert_eq!(editor.brush_size, expected);
    }
    let mut both = EditorKeys::none();
    both.brush_decrease = true;
    both.brush_increase = true;
    level_editor_input(&both, &mut editor);
    assert_eq!(editor.brush_size, 2);
    editor.brush_size = 9;
    level_editor_input(&smaller, &mut editor);
    assert_eq!(editor.brush_size, 5);
    editor.brush_size = 0;
    level_editor_input(&larger, &mut editor);
    assert_eq!(editor.brush_size, 1);
}

#[test]
fn painting_one_cell_twice() {
    let mut level = LevelData::new(10, 10).unwrap();
    let map = create_collision_map();
    let registry = registry();
    let editor = enabled_editor(180, 1);
    let mut world: Vec<PlacedTile> = Vec::new();

    let edit = level_editor_mouse(&editor, &mut level, Some((70, -85)), true, false, &registry, &map, &world);
    assert_eq!(level.tiles[5][4], 180);
    assert!(edit.despawn.is_empty());
    assert_eq!(edit.spawn.len(), 1);
    assert_eq!((edit.spawn[0].world_x, edit.spawn[0].world_y), (64, -80));
    assert_eq!(edit.spawn[0].collider, Some(ColliderKind::Solid));
    assert_eq!(edit.spawn[0].tile.index, 180);
    assert_eq!((edit.spawn[0].tile.tileset_x, edit.spawn[0].tile.tileset_y), (4, 11));
    assert!(edit.spawn[0].editor_tile);
    perform(&mut world, &edit);
    assert_eq!(world, vec![PlacedTile { world_x: 64, world_y: -80, index: 180 }]);
    let painted: usize = level.tiles.iter().map(|row| row.iter().filter(|&&t| t != 255).count()).sum();
    assert_eq!(painted, 1);

    let level_after_one = level.tiles.clone();
    let world_after_one = world.clone();
    let edit = level_editor_mouse(&editor, &mut level, Some((70, -85)), true, false, &registry, &map, &world);
    assert_eq!(edit.despawn, vec![0]);
    assert_eq!(edit.spawn.len(), 1);
    perform(&mut world, &edit);
    assert_eq!(level.tiles, level_after_one);
    assert_eq!(world, world_after_one);
}

#[test]
fn painting_twice_with_a_large_brush() {
    let mut level = LevelData::new(6, 6).unwrap();
    let map = create_collision_map();
    let registry = registry();
    let mut world = vec![
        PlacedTile { world_x: 16, world_y: -16, index: 7 },
        PlacedTile { world_x: 80, world_y: -80, index: 7 },
        PlacedTile { world_x: 0, world_y: 0, index: 9 },
    ];
    let edit = place_tile_at_world_pos(&mut level, 5, -5, 32, 3, &registry, &map, &world);
    assert_eq!(edit.despawn, vec![0, 2]);
    assert_eq!(edit.spawn.len(), 4);
    let at: Vec<(i64, i64)> = edit.spawn.iter().map(|s| (s.world_x, s.world_y)).collect();
    assert_eq!(at, vec![(0, 0), (16, 0), (0, -16), (16, -16)]);
    assert!(edit.spawn.iter().all(|s| s.collider == Some(ColliderKind::Platform) && s.editor_tile));
    perform(&mut world, &edit);
    assert_eq!(world.len(), 5);
    assert_eq!(world[0], PlacedTile { world_x: 80, world_y: -80, index: 7 });
    assert_eq!(level.tiles[0][0], 32);
    assert_eq!(level.tiles[1][1], 32);
    assert_eq!(level.tiles[2][2], 255);
    assert_eq!(level.tiles[0][2], 255);

    let level_once = level.tiles.clone();
    let world_once = world.clone();
    let edit = place_tile_at_world_pos(&mut level, 5, -5, 32, 3, &registry, &map, &world);
    assert_eq!(edit.despawn, vec![1, 2, 3, 4]);
    perform(&mut world, &edit);
    assert_eq!(level.tiles, level_once);
    assert_eq!(world, world_once);
}

#[test]
fn brush_covers_a_square_cut_to_the_level() {
    let map = create_collision_map();
    let registry = registry();
    for (brush, radius) in [(1i64, 0i64), (2, 1), (3, 1), (4, 2), (5, 2)] {
        let mut level = LevelData::new(8, 7).unwrap();
        let edit = place_tile_at_world_pos(&mut level, 6 * 16 + 3, -(16 + 9), 1, brush as u32, &registry, &map, &Vec::new());
        let mut count = 0;
        for y in 0..7i64 {
            for x in 0..8i64 {
                let under = (x - 6).abs() <= radius && (y - 1).abs() <= radius;
                assert_eq!(level.tiles[y as usize][x as usize], if under { 1 } else { 255 });
                if under {
                    count += 1;
                }
            }
        }
        assert_eq!(edit.spawn.len(), count);
    }
}

#[test]
fn painting_outside_the_level_changes_nothing() {
    let map = create_collision_map();
    let registry = registry();
    let world = vec![PlacedTile { world_x: 0, world_y: 0, index: 7 }];
    for point in [(-20, -20), (20, 20), (1000, -20), (20, -1000), (i64::MIN, i64::MIN), (i64::MAX, i64::MIN)] {
        let mut level = LevelData::new(4, 4).unwrap();
        let edit = place_tile_at_world_pos(&mut level, point.0, point.1, 180, 1, &registry, &map, &world);
        assert!(edit.despawn.is_empty());
        assert!(edit.spawn.is_empty());
        assert!(level.tiles.iter().all(|row| row.iter().all(|&t| t == 255)));
    }
    let mut level = LevelData::new(4, 4).unwrap();
    let edit = place_tile_at_world_pos(&mut level, -1, -1, 180, 3, &registry, &map, &world);
    assert_eq!(edit.despawn, vec![0]);
    assert_eq!(edit.spawn.len(), 2);
    assert_eq!(level.tiles[0][0], 180);
    assert_eq!(level.tiles[1][0], 180);
    assert_eq!(level.tiles[0][1], 255);
}

#[test]
fn painting_the_empty_tile_brings_nothing_in() {
    let map = create_collision_map();
    let mut level = LevelData::filled(3, 3, 5);
    let world = vec![PlacedTile { world_x: 16, world_y: -16, index: 5 }];
    let edit = place_tile_at_world_pos(&mut level, 16, -16, 255, 1, &TilesetRegistry::new(), &map, &world);
    assert_eq!(edit.despawn, vec![0]);
    assert!(edit.spawn.is_empty());
    assert_eq!(level.tiles, vec![vec![5, 5, 5], vec![5, 255, 5], vec![5, 5, 5]]);
}

#[test]
fn erasing_empties_the_cells_and_takes_the_tiles_out() {
    let mut level = LevelData::filled(4, 4, 9);
    let world = vec![
        PlacedTile { world_x: 16, world_y: -16, index: 9 },
        PlacedTile { world_x: 23, world_y: -16, index: 9 },
        PlacedTile { world_x: 24, world_y: -16, index: 9 },
        PlacedTile { world_x: 16, world_y: -24, index: 9 },
        PlacedTile { world_x: 21, world_y: -21, index: 9 },
        PlacedTile { world_x: 22, world_y: -22, index: 9 },
    ];
    let edit = remove_tile_at_world_pos(&mut level, 20, -20, 1, &world);
    assert_eq!(edit.despawn, vec![0, 1, 4]);
    assert!(edit.spawn.is_empty());
    assert_eq!(level.tiles[1][1], 255);
    assert_eq!(level.tiles[1][2], 9);
    assert_eq!(level.tiles[0][1], 9);
}

#[test]
fn pointer_is_ignored_unless_the_editor_edits() {
    let map = create_collision_map();
    let registry = registry();
    let world = vec![PlacedTile { world_x: 0, world_y: 0, index: 1 }];
    let mut level = LevelData::new(3, 3).unwrap();
    let off = LevelEditor::default();
    let edit = level_editor_mouse(&off, &mut level, Some((0, 0)), true, true, &registry, &map, &world);
    assert!(edit.despawn.is_empty() && edit.spawn.is_empty());
    let on = enabled_editor(180, 1);
    let edit = level_editor_mouse(&on, &mut level, None, true, false, &registry, &map, &world);
    assert!(edit.despawn.is_empty() && edit.spawn.is_empty());
    let edit = level_editor_mouse(&on, &mut level, Some((0, 0)), false, false, &registry, &map, &world);
    assert!(edit.despawn.is_empty() && edit.spawn.is_empty());
    assert!(level.tiles.iter().all(|row| row.iter().all(|&t| t == 255)));
}

#[test]
fn pointer_erases_and_paints() {
    let map = create_collision_map();
    let registry = registry();
    let on = enabled_editor(180, 1);
    let world = vec![PlacedTile { world_x: 16, world_y: 0, index: 1 }];
    let mut level = LevelData::filled(3, 3, 4);
    let edit = level_editor_mouse(&on, &mut level, Some((17, -1)), false, true, &registry, &map, &world);
    assert_eq!(edit.despawn, vec![0]);
    assert!(edit.spawn.is_empty());
    assert_eq!(level.tiles[0], vec![4, 255, 4]);
    let mut level = LevelData::filled(3, 3, 4);
    let edit = level_editor_mouse(&on, &mut level, Some((17, -1)), true, true, &registry, &map, &world);
    assert_eq!(edit.despawn, vec![0]);
    assert_eq!(edit.spawn.len(), 1);
    assert_eq!(level.tiles[0], vec![4, 255, 4]);
}

#[test]
fn editor_tile_spawn() {
    let map = create_collision_map();
    let info = TilesetInfo { tile_size: 16, tiles_per_row: 10, tiles_per_column: 30, texture_handle: 5, layout_handle: 6 };
    let spawn = spawn_editor_tile(48, 32, -48, &info, &map);
    assert_eq!((spawn.tile.index, spawn.tile.tileset_x, spawn.tile.tileset_y), (48, 8, 4));
    assert_eq!((spawn.world_x, spawn.world_y), (32, -48));
    assert_eq!((spawn.texture_handle, spawn.layout_handle), (5, 6));
    assert_eq!(spawn.collider, Some(ColliderKind::Platform));
    assert!(spawn.editor_tile);
}

#[test]
fn panel_lines_while_the_panel_is_shown() {
    let editor = enabled_editor(180, 3);
    let lines = editor.panel_lines().unwrap();
    assert_eq!(lines.tile, "Current Tile: 180");
    assert_eq!(lines.brush, "Brush Size: 3");
    assert!(LevelEditor::default().panel_lines().is_none());
    let hidden = LevelEditor { enabled: true, current_tile: 1, brush_size: 1, show_ui: false };
    assert!(hidden.panel_lines().is_none());
}

#[test]
fn save_and_load_requests() {
    let level = LevelData { width: 2, height: 1, tiles: vec![vec![180, 255]] };
    let mut keys = EditorKeys::none();
    keys.save = true;
    keys.load = true;
    let off = level_editor_save_load(&keys, &LevelEditor::default(), &level);
    assert_eq!(off.save, None);
    assert!(!off.load);
    let on = enabled_editor(180, 1);
    let both = level_editor_save_load(&keys, &on, &level);
    assert_eq!(both.save, Some("2,1\n180,255\n".to_string()));
    assert!(both.load);
    let none = level_editor_save_load(&EditorKeys::none(), &on, &level);
    assert_eq!(none.save, None);
    assert!(!none.load);
    let saved = both.save.unwrap();
    assert_eq!(parse_level_text(&saved).unwrap().tiles, level.tiles);
}

#[test]
fn reload_replaces_the_level_and_resyncs() {
    let map = create_collision_map();
    let info = TilesetInfo { tile_size: 16, tiles_per_row: 16, tiles_per_column: 16, texture_handle: 1, layout_handle: 2 };
    let mut level = LevelData::new(4, 4).unwrap();
    let edit = reload_level(&mut level, "2,2\n180,255\n255,32\n", 3, &info, &map).unwrap();
    assert_eq!((level.width, level.height), (2, 2));
    assert_eq!(level.tiles, vec![vec![180, 255], vec![255, 32]]);
    assert_eq!(edit.despawn, vec![0, 1, 2]);
    assert_eq!(edit.spawn.len(), 2);
    assert_eq!((edit.spawn[0].tile.index, edit.spawn[0].world_x, edit.spawn[0].world_y), (180, 0, 0));
    assert_eq!((edit.spawn[1].tile.index, edit.spawn[1].world_x, edit.spawn[1].world_y), (32, 16, -16));
}

#[test]
fn reload_of_a_bad_text_changes_nothing() {
    let map = create_collision_map();
    let info = TilesetInfo { tile_size: 16, tiles_per_row: 16, tiles_per_column: 16, texture_handle: 1, layout_handle: 2 };
    let mut level = LevelData::filled(2, 2, 7);
    let error = reload_level(&mut level, "2,2\n180,255\n", 3, &info, &map).unwrap_err();
    assert_eq!(error, LevelError::MissingData);
    assert_eq!((level.width, level.height), (2, 2));
    assert_eq!(level.tiles, vec![vec![7, 7], vec![7, 7]]);
}
