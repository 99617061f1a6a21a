use tile_level::level::{get_tile_at_position, set_tile_at_position, LevelData};
use tile_level::spawner::create_default_level;

#[test]
fn new_level_is_empty() {
    let level = LevelData::new(3, 2).unwrap();
    assert_eq!(level.width, 3);
    assert_eq!(level.height, 2);
    assert_eq!(level.tiles, vec![vec![255, 255, 255], vec![255, 255, 255]]);
}

#[test]
fn new_level_respects_the_limits() {
    assert!(LevelData::new(200, 50).is_some());
    assert!(LevelData::new(1, 1).is_some());
    assert!(LevelData::new(201, 50).is_none());
    assert!(LevelData::new(200, 51).is_none());
    assert!(LevelData::new(0, 5).is_none());
    assert!(LevelData::new(5, 0).is_none());
    assert!(LevelData::new(u32::MAX, u32::MAX).is_none());
}

#[test]
fn filled_level_has_the_grid_shape() {
    let level = LevelData::filled(4, 3, 7);
    assert_eq!(level.tiles.len(), 3);
    assert!(level.tiles.iter().all(|row| row == &vec![7, 7, 7, 7]));
    let none = LevelData::filled(0, 0, 7);
    assert!(none.tiles.is_empty());
}

#[test]
fn grid_shape_is_checked() {
    let mut level = LevelData::filled(4, 3, 7);
    assert!(level.is_well_formed());
    level.tiles[2].push(7);
    assert!(!level.is_well_formed());
    level.tiles[2].pop();
    level.tiles.pop();
    assert!(!level.is_well_formed());
    level.height = 2;
    assert!(level.is_well_formed());
    level.width = 5;
    assert!(!level.is_well_formed());
    assert!(LevelData { width: 3, height: 0, tiles: vec![] }.is_well_formed());
}

#[test]
fn get_and_set() {
    let mut level = LevelData::new(3, 2).unwrap();
    assert_eq!(level.get(0, 0), Some(255));
    assert_eq!(level.get(2, 1), Some(255));
    assert_eq!(level.get(3, 0), None);
    assert_eq!(level.get(0, 2), None);
    assert!(level.set(2, 1, 180));
    assert_eq!(level.get(2, 1), Some(180));
    assert_eq!(level.tiles, vec![vec![255, 255, 255], vec![255, 255, 180]]);
    assert!(!level.set(3, 1, 9));
    assert!(!level.set(2, 2, 9));
    assert_eq!(level.tiles, vec![vec![255, 255, 255], vec![255, 255, 180]]);
}

#[test]
fn grid_to_world_flips_the_y_axis() {
    assert_eq!(LevelData::grid_to_world(0, 0), (0, 0));
    assert_eq!(LevelData::grid_to_world(4, 5), (64, -80));
    assert_eq!(LevelData::grid_to_world(u32::MAX, u32::MAX), (68719476720, -68719476720));
}

#[test]
fn world_to_grid_rounds_down() {
    let level = LevelData::new(10, 10).unwrap();
    assert_eq!(level.world_to_grid(0, 0), Some((0, 0)));
    assert_eq!(level.world_to_grid(15, -15), Some((0, 0)));
    assert_eq!(level.world_to_grid(16, -16), Some((1, 1)));
    assert_eq!(level.world_to_grid(70, -85), Some((4, 5)));
    assert_eq!(level.world_to_grid(159, -159), Some((9, 9)));
    assert_eq!(level.world_to_grid(160, 0), None);
    assert_eq!(level.world_to_grid(0, -160), None);
    assert_eq!(level.world_to_grid(-1, 0), None);
    assert_eq!(level.world_to_grid(0, 1), None);
    assert_eq!(level.world_to_grid(i64::MIN, i64::MIN), None);
    assert_eq!(level.world_to_grid(i64::MAX, i64::MAX), None);
}

#[test]
fn world_to_grid_inverts_grid_to_world() {
    let level = LevelData::new(200, 50).unwrap();
    for gy in 0..50 {
        for gx in 0..200 {
            let (wx, wy) = LevelData::grid_to_world(gx, gy);
            assert_eq!(level.world_to_grid(wx, wy), Some((gx, gy)));
        }
    }
}

#[test]
fn tile_at_world_position() {
    let mut level = LevelData::new(4, 4).unwrap();
    assert!(set_tile_at_position(&mut level, 17, -33, 180));
    assert_eq!(level.tiles[2][1], 180);
    assert_eq!(get_tile_at_position(&level, 16, -32), Some(180));
    assert_eq!(get_tile_at_position(&level, 31, -47), Some(180));
    assert_eq!(get_tile_at_position(&level, 32, -47), Some(255));
    assert_eq!(get_tile_at_position(&level, 64, 0), None);
    assert_eq!(get_tile_at_position(&level, -1, -1), None);
    assert!(!set_tile_at_position(&mut level, 64, 0, 1));
    assert!(!set_tile_at_position(&mut level, 0, 16, 1));
}

#[test]
fn default_level_layout() {
    let level = create_default_level();
    assert_eq!(level.width, 50);
    assert_eq!(level.height, 20);
    assert_eq!(level.tiles.len(), 20);
    assert!(level.tiles.iter().all(|row| row.len() == 50));
    assert!(level.tiles[19].iter().all(|&tile| tile == 16));
    assert_eq!(level.tiles[18][0], 178);
    assert_eq!(level.tiles[18][1], 177);
    assert_eq!(level.tiles[18][45], 178);
    assert_eq!(level.tiles[18][49], 177);
    assert_eq!(level.tiles[15][10], 32);
    assert_eq!(level.tiles[15][14], 32);
    assert_eq!(level.tiles[15][15], 255);
    assert_eq!(level.tiles[12][25], 33);
    assert_eq!(level.tiles[9][39], 48);
    assert_eq!(level.tiles[17][5], 8);
    assert_eq!(level.tiles[17][45], 24);
    assert_eq!(level.tiles[16][20], 40);
    assert_eq!(level.tiles[10][0], 18);
    assert_eq!(level.tiles[17][49], 18);
    assert_eq!(level.tiles[9][0], 255);
    assert_eq!(level.tiles[17][15], 20);
    assert_eq!(level.tiles[17][35], 21);
    assert_eq!(level.tiles[0][0], 255);
}
