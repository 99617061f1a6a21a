use tile_level::animation::next_frame_index;
use tile_level::collision::{
    create_collision_map, get_tile_type_name, is_decorative_tile, is_platform_tile, is_solid_tile,
    ColliderKind, TileCollisionMap,
};
use tile_level::error::LevelError;
use tile_level::level::LevelData;
use tile_level::spawner::{spawn_level_tiles, spawn_tile_at_position};
use tile_level::tileset::{TileIndex, TilesetInfo, TilesetRegistry};

fn tileset() -> TilesetInfo {
    TilesetInfo { tile_size: 16, tiles_per_row: 16, tiles_per_column: 16, texture_handle: 11, layout_handle: 22 }
}

#[test]
fn usual_classification() {
    let solid = [177, 178, 179, 180, 16, 17, 18, 19, 20, 21, 22, 23, 4, 5, 6, 7, 80, 81];
    let platform = [32, 33, 34, 35, 48, 49, 50, 51, 64, 65, 66, 67];
    let decorative = [8, 9, 10, 11, 24, 25, 26, 27, 40, 41, 42, 43];
    for tile in 0..400u32 {
        assert_eq!(is_solid_tile(tile), solid.contains(&tile));
        assert_eq!(is_platform_tile(tile), platform.contains(&tile));
        assert_eq!(is_decorative_tile(tile), decorative.contains(&tile));
    }
}

#[test]
fn classification_is_disjoint() {
    let map = create_collision_map();
    for tile in 0..1000u32 {
        assert!(!(map.solid_tiles.contains(&tile) && map.platform_tiles.contains(&tile)));
        assert!(!(is_solid_tile(tile) && is_platform_tile(tile)));
        assert_eq!(map.solid_tiles.contains(&tile), is_solid_tile(tile));
        assert_eq!(map.platform_tiles.contains(&tile), is_platform_tile(tile));
    }
    assert_eq!(map.solid_tiles.len(), 18);
    assert_eq!(map.platform_tiles.len(), 12);
}

#[test]
fn tile_type_names() {
    assert_eq!(get_tile_type_name(177), "Grass");
    assert_eq!(get_tile_type_name(180), "Grass");
    assert_eq!(get_tile_type_name(16), "Stone");
    assert_eq!(get_tile_type_name(23), "Brick");
    assert_eq!(get_tile_type_name(4), "Rock");
    assert_eq!(get_tile_type_name(35), "Wood Platform");
    assert_eq!(get_tile_type_name(48), "Stone Platform");
    assert_eq!(get_tile_type_name(67), "Metal Platform");
    assert_eq!(get_tile_type_name(8), "Flower");
    assert_eq!(get_tile_type_name(27), "Tree");
    assert_eq!(get_tile_type_name(40), "Crystal");
    assert_eq!(get_tile_type_name(81), "Spikes");
    assert_eq!(get_tile_type_name(96), "Water");
    assert_eq!(get_tile_type_name(115), "Lava");
    assert_eq!(get_tile_type_name(255), "Empty");
    assert_eq!(get_tile_type_name(0), "Unknown");
    assert_eq!(get_tile_type_name(82), "Unknown");
    assert_eq!(get_tile_type_name(181), "Unknown");
}

#[test]
fn collider_by_classification() {
    let map = create_collision_map();
    assert_eq!(map.collider_for(180), Some(ColliderKind::Solid));
    assert_eq!(map.collider_for(81), Some(ColliderKind::Solid));
    assert_eq!(map.collider_for(32), Some(ColliderKind::Platform));
    assert_eq!(map.collider_for(8), None);
    assert_eq!(map.collider_for(255), None);
    assert_eq!(ColliderKind::Solid.half_extents(), (8, 8));
    assert_eq!(ColliderKind::Platform.half_extents(), (8, 4));
}

#[test]
fn classification_of_ones_own() {
    let map = TileCollisionMap::new(&[1, 2, 2, 3], &[4, 5]).unwrap();
    assert_eq!(map.solid_tiles.len(), 3);
    assert_eq!(map.platform_tiles.len(), 2);
    assert_eq!(map.collider_for(2), Some(ColliderKind::Solid));
    assert_eq!(map.collider_for(5), Some(ColliderKind::Platform));
    assert_eq!(map.collider_for(6), None);
    let empty = TileCollisionMap::new(&[], &[]).unwrap();
    assert_eq!(empty.collider_for(0), None);
}

#[test]
fn classification_conflict_is_refused() {
    let error = TileCollisionMap::new(&[1, 2, 3], &[9, 3, 2]).unwrap_err();
    assert_eq!(error, LevelError::ClassificationConflict { tile_id: 3 });
    let error = TileCollisionMap::new(&[7], &[7]).unwrap_err();
    assert_eq!(error, LevelError::ClassificationConflict { tile_id: 7 });
}

#[test]
fn atlas_cell_of_a_tile() {
    assert_eq!(TileIndex::new(0, 16), TileIndex { index: 0, tileset_x: 0, tileset_y: 0 });
    assert_eq!(TileIndex::new(180, 16), TileIndex { index: 180, tileset_x: 4, tileset_y: 11 });
    assert_eq!(TileIndex::new(255, 16), TileIndex { index: 255, tileset_x: 15, tileset_y: 15 });
    assert_eq!(TileIndex::new(7, 1), TileIndex { index: 7, tileset_x: 0, tileset_y: 7 });
    assert_eq!(TileIndex::new(7, 10), TileIndex { index: 7, tileset_x: 7, tileset_y: 0 });
}

#[test]
fn registry_of_tilesets() {
    let mut registry = TilesetRegistry::new();
    assert_eq!(registry.current(), None);
    assert!(!registry.set_current(0));
    let first = tileset();
    let second = TilesetInfo { tile_size: 32, tiles_per_row: 8, tiles_per_column: 8, texture_handle: 3, layout_handle: 4 };
    assert_eq!(registry.register(first), 0);
    assert_eq!(registry.current(), Some(first));
    assert_eq!(registry.register(second), 1);
    assert_eq!(registry.current(), Some(first));
    assert!(registry.set_current(1));
    assert_eq!(registry.current(), Some(second));
    assert!(!registry.set_current(2));
    assert_eq!(registry.current_tileset, 1);
    assert_eq!(registry.tilesets.len(), 2);
}

#[test]
fn spawn_of_one_tile() {
    let map = create_collision_map();
    let spawn = spawn_tile_at_position(180, 64, -80, &tileset(), &map);
    assert_eq!(spawn.tile, TileIndex { index: 180, tileset_x: 4, tileset_y: 11 });
    assert_eq!((spawn.world_x, spawn.world_y), (64, -80));
    assert_eq!((spawn.texture_handle, spawn.layout_handle), (11, 22));
    assert_eq!(spawn.collider, Some(ColliderKind::Solid));
    assert!(!spawn.editor_tile);
    assert_eq!(spawn_tile_at_position(33, 0, 0, &tileset(), &map).collider, Some(ColliderKind::Platform));
    assert_eq!(spawn_tile_at_position(9, 0, 0, &tileset(), &map).collider, None);
}

#[test]
fn spawns_of_a_level() {
    let map = create_collision_map();
    let level = LevelData { width: 3, height: 2, tiles: vec![vec![255, 180, 255], vec![32, 255, 8]] };
    let spawns = spawn_level_tiles(&level, &tileset(), &map);
    assert_eq!(spawns.len(), 3);
    assert_eq!((spawns[0].tile.index, spawns[0].world_x, spawns[0].world_y), (180, 16, 0));
    assert_eq!(spawns[0].collider, Some(ColliderKind::Solid));
    assert_eq!((spawns[1].tile.index, spawns[1].world_x, spawns[1].world_y), (32, 0, -16));
    assert_eq!(spawns[1].collider, Some(ColliderKind::Platform));
    assert_eq!((spawns[2].tile.index, spawns[2].world_x, spawns[2].world_y), (8, 32, -16));
    assert_eq!(spawns[2].collider, None);
    assert!(spawns.iter().all(|spawn| !spawn.editor_tile));
    let empty = LevelData::new(4, 4).unwrap();
    assert!(spawn_level_tiles(&empty, &tileset(), &map).is_empty());
}

#[test]
fn animation_frames_start_over() {
    assert_eq!(next_frame_index(0, 0, 9), 1);
    assert_eq!(next_frame_index(8, 0, 9), 9);
    assert_eq!(next_frame_index(9, 0, 9), 0);
    assert_eq!(next_frame_index(12, 2, 9), 2);
    assert_eq!(next_frame_index(3, 3, 3), 3);
}
