use std::collections::HashMap;
use tile_level::error::LevelError;
use tile_level::tiled::{
    create_sample_tiled_map, create_tile_mapping, extract_object_layers, get_tiled_map_info,
    load_tiled_layers, tiled_map_to_level_data, tiled_map_to_level_data_with_mapping,
    tiled_to_world_coords, validate_tiled_map, world_to_tiled_coords, TiledLayer, TiledLoadError,
    TiledMap, TiledProperty,
};

fn layer(name: &str, layer_type: &str, width: u32, height: u32, data: Vec<u32>) -> TiledLayer {
    TiledLayer {
        name: name.to_string(),
        layer_type: layer_type.to_string(),
        width,
        height,
        data,
        visible: true,
        opacity_bits: 1.0f32.to_bits(),
        properties: vec![],
    }
}

fn map_of(width: u32, height: u32, layers: Vec<TiledLayer>) -> TiledMap {
    TiledMap { width, height, tilewidth: 16, tileheight: 16, layers, tilesets: vec![], properties: vec![] }
}

#[test]
fn test_sample_tiled_map() {
    let tiled_map = create_sample_tiled_map();
    assert_eq!(tiled_map.width, 5);
    assert_eq!(tiled_map.height, 5);
    assert_eq!(tiled_map.layers.len(), 1);
    assert_eq!(tiled_map.tilesets.len(), 1);
}

#[test]
fn test_tiled_to_level_data_conversion() {
    let tiled_map = create_sample_tiled_map();
    let level_data = tiled_map_to_level_data(&tiled_map).unwrap();

    assert_eq!(level_data.width, 5);
    assert_eq!(level_data.height, 5);

    // Check first row (should be tile 0 after conversion from 1-based)
    assert_eq!(level_data.tiles[0][0], 0);
    assert_eq!(level_data.tiles[0][1], 0);

    // Check empty space (should be 255)
    assert_eq!(level_data.tiles[1][0], 255);
}

#[test]
fn test_coordinate_conversion() {
    let (world_x, world_y) = tiled_to_world_coords(1, 1, 16);
    assert_eq!(world_x as f32, 16.0);
    assert_eq!(world_y as f32, -16.0);

    let (tiled_x, tiled_y) = world_to_tiled_coords(16, -16, 16);
    assert_eq!(tiled_x, 1);
    assert_eq!(tiled_y, 1);
}

#[test]
fn sample_map_in_full() {
    let sample = create_sample_tiled_map();
    assert_eq!(sample.tilewidth, 16);
    assert_eq!(sample.tileheight, 16);
    assert!(sample.properties.is_empty());
    let ground = &sample.layers[0];
    assert_eq!(ground.name, "Ground");
    assert_eq!(ground.layer_type, "tilelayer");
    assert_eq!((ground.width, ground.height), (5, 5));
    assert_eq!(
        ground.data,
        vec![1, 1, 1, 1, 1, 0, 0, 0, 0, 0, 0, 0, 2, 0, 0, 0, 0, 0, 0, 0, 2, 2, 2, 2, 2]
    );
    assert!(ground.visible);
    assert_eq!(f32::from_bits(ground.opacity_bits), 1.0);
    let tileset = &sample.tilesets[0];
    assert_eq!(tileset.firstgid, 1);
    assert_eq!(tileset.name, "Sample Tileset");
    assert_eq!((tileset.tilewidth, tileset.tileheight), (16, 16));
    assert_eq!(tileset.tilecount, 256);
    assert_eq!(tileset.columns, 16);
    assert_eq!(tileset.image, "tileset.png");
    assert!(validate_tiled_map(&sample).is_ok());
}

#[test]
fn tiled_import_of_three_rows() {
    let map = map_of(3, 3, vec![layer("Ground", "tilelayer", 3, 3, vec![1, 1, 1, 0, 0, 0, 0, 0, 2])]);
    let level = tiled_map_to_level_data(&map).unwrap();
    assert_eq!(level.width, 3);
    assert_eq!(level.height, 3);
    assert_eq!(level.tiles, vec![vec![0, 0, 0], vec![255, 255, 255], vec![255, 255, 1]]);
}

#[test]
fn tiled_shift_of_each_entry() {
    let data: Vec<u32> = vec![0, 1, 2, 255, 256, 257, 1000, u32::MAX];
    let map = map_of(4, 2, vec![layer("L", "tilelayer", 4, 2, data.clone())]);
    let level = tiled_map_to_level_data(&map).unwrap();
    for (i, raw) in data.iter().enumerate() {
        let expected = if *raw == 0 { 255 } else { *raw - 1 };
        assert_eq!(level.tiles[i / 4][i % 4], expected);
    }
}

#[test]
fn tiled_import_uses_the_first_tile_layer_and_the_size_of_the_map() {
    let map = map_of(
        2,
        2,
        vec![
            layer("Objects", "objectgroup", 0, 0, vec![]),
            layer("First", "tilelayer", 2, 2, vec![5, 6, 7]),
            layer("Second", "tilelayer", 2, 2, vec![9, 9, 9, 9]),
        ],
    );
    let level = tiled_map_to_level_data(&map).unwrap();
    assert_eq!(level.tiles, vec![vec![4, 5], vec![6, 255]]);
}

#[test]
fn tiled_import_without_tile_layer() {
    let map = map_of(2, 2, vec![layer("Objects", "objectgroup", 0, 0, vec![])]);
    let error = tiled_map_to_level_data(&map).unwrap_err();
    assert_eq!(error.kind, LevelError::MissingData);
    assert_eq!(error.message, "No tile layer found in Tiled map");
    assert_eq!(error.to_text(), "Tiled Load Error: No tile layer found in Tiled map");
    let error = tiled_map_to_level_data_with_mapping(&map, &HashMap::new()).unwrap_err();
    assert_eq!(error.kind, LevelError::MissingData);
    assert_eq!(error.message, "No tile layer found in Tiled map");
    let empty = map_of(0, 0, vec![]);
    assert!(tiled_map_to_level_data(&empty).is_err());
}

#[test]
fn tiled_import_with_mapping() {
    let map = map_of(3, 2, vec![layer("Ground", "tilelayer", 3, 2, vec![1, 2, 9, 0, 8, 100])]);
    let mapping = create_tile_mapping();
    let level = tiled_map_to_level_data_with_mapping(&map, &mapping).unwrap();
    assert_eq!(level.tiles, vec![vec![180, 176, 8], vec![255, 187, 99]]);
    let moved: HashMap<u32, u32> = [(254, 1), (255, 2)].into_iter().collect();
    let map = map_of(3, 1, vec![layer("Ground", "tilelayer", 3, 1, vec![0, 255, 256])]);
    let level = tiled_map_to_level_data_with_mapping(&map, &moved).unwrap();
    assert_eq!(level.tiles, vec![vec![255, 1, 2]]);
}

#[test]
fn tile_mapping_entries() {
    let mapping = create_tile_mapping();
    let expected: HashMap<u32, u32> =
        [(0, 180), (1, 176), (2, 184), (3, 181), (4, 182), (5, 183), (6, 185), (7, 187)].into_iter().collect();
    assert_eq!(mapping, expected);
}

#[test]
fn tiled_layers_each_with_its_own_size() {
    let map = map_of(
        2,
        2,
        vec![
            layer("Back", "tilelayer", 2, 1, vec![1, 0]),
            layer("Things", "objectgroup", 0, 0, vec![]),
            layer("Front", "tilelayer", 1, 3, vec![3, 2]),
        ],
    );
    let layers = load_tiled_layers(&map).unwrap();
    assert_eq!(layers.len(), 2);
    assert_eq!(layers[0].0, "Back");
    assert_eq!((layers[0].1.width, layers[0].1.height), (2, 1));
    assert_eq!(layers[0].1.tiles, vec![vec![0, 255]]);
    assert_eq!(layers[1].0, "Front");
    assert_eq!((layers[1].1.width, layers[1].1.height), (1, 3));
    assert_eq!(layers[1].1.tiles, vec![vec![2], vec![1], vec![255]]);
    assert!(load_tiled_layers(&map_of(1, 1, vec![])).unwrap().is_empty());
}

#[test]
fn validation_of_maps() {
    let good = map_of(2, 2, vec![layer("G", "tilelayer", 2, 2, vec![0; 4]), layer("O", "objectgroup", 9, 9, vec![])]);
    assert!(validate_tiled_map(&good).is_ok());

    let none = map_of(2, 2, vec![layer("O", "objectgroup", 2, 2, vec![0; 4])]);
    let error = validate_tiled_map(&none).unwrap_err();
    assert_eq!(error.kind, LevelError::MissingData);
    assert_eq!(error.message, "Map must contain at least one tile layer");

    let wide = map_of(2, 2, vec![layer("Wide", "tilelayer", 3, 2, vec![0; 6])]);
    let error = validate_tiled_map(&wide).unwrap_err();
    assert_eq!(error.kind, LevelError::ShapeMismatch { expected: 2, got: 3, line: 1 });
    assert_eq!(error.message, "Layer 'Wide' has inconsistent dimensions");

    let high = map_of(2, 2, vec![layer("A", "tilelayer", 2, 2, vec![0; 4]), layer("High", "tilelayer", 2, 5, vec![0; 10])]);
    let error = validate_tiled_map(&high).unwrap_err();
    assert_eq!(error.kind, LevelError::ShapeMismatch { expected: 2, got: 5, line: 2 });
    assert_eq!(error.message, "Layer 'High' has inconsistent dimensions");

    let short = map_of(2, 2, vec![layer("O", "objectgroup", 0, 0, vec![]), layer("Short", "tilelayer", 2, 2, vec![0; 3])]);
    let error = validate_tiled_map(&short).unwrap_err();
    assert_eq!(error.kind, LevelError::ShapeMismatch { expected: 4, got: 3, line: 2 });
    assert_eq!(error.message, "Layer 'Short' has incorrect data length");
}

#[test]
fn map_info_text() {
    let sample = create_sample_tiled_map();
    assert_eq!(
        get_tiled_map_info(&sample),
        "Tiled Map Information:\n  Size: 5x5\n  Tile Size: 16x16\n  Layers: 1\n  Tilesets: 1\n\nLayers:\n  1: Ground (5x5) - tilelayer\n\nTilesets:\n  1: Sample Tileset (GID: 1, Tiles: 256)\n"
    );
    let bare = map_of(10, 20, vec![layer("A", "tilelayer", 1, 2, vec![]), layer("B", "objectgroup", 3, 4, vec![])]);
    assert_eq!(
        get_tiled_map_info(&bare),
        "Tiled Map Information:\n  Size: 10x20\n  Tile Size: 16x16\n  Layers: 2\n  Tilesets: 0\n\nLayers:\n  1: A (1x2) - tilelayer\n  2: B (3x4) - objectgroup\n\nTilesets:\n"
    );
}

#[test]
fn object_layers_by_name() {
    let map = map_of(
        1,
        1,
        vec![
            layer("Spawns", "objectgroup", 0, 0, vec![]),
            layer("Ground", "tilelayer", 1, 1, vec![1]),
            layer("Triggers", "objectgroup", 0, 0, vec![]),
        ],
    );
    let found = extract_object_layers(&map);
    let names: Vec<&str> = found.iter().map(|layer| layer.name.as_str()).collect();
    assert_eq!(names, vec!["Spawns", "Triggers"]);
    assert!(extract_object_layers(&create_sample_tiled_map()).is_empty());
}

#[test]
fn properties_carry_their_value() {
    let property = TiledProperty {
        name: "gravity".to_string(),
        property_type: "float".to_string(),
        value: serde_json::Value::from(9.5),
    };
    let mut map = create_sample_tiled_map();
    map.properties.push(property);
    assert_eq!(map.properties[0].value.as_f64(), Some(9.5));
    assert!(validate_tiled_map(&map).is_ok());
}

#[test]
fn tiled_and_world_coordinates() {
    assert_eq!(tiled_to_world_coords(0, 0, 16), (0, 0));
    assert_eq!(tiled_to_world_coords(3, 2, 32), (96, -64));
    assert_eq!(tiled_to_world_coords(u32::MAX, u32::MAX, 0x7FFF_FFFF), (9223372030412324865, -9223372030412324865));
    assert_eq!(world_to_tiled_coords(0, 0, 16), (0, 0));
    assert_eq!(world_to_tiled_coords(31, -31, 16), (1, 1));
    assert_eq!(world_to_tiled_coords(32, -32, 16), (2, 2));
    assert_eq!(world_to_tiled_coords(-1, 1, 16), (0, 0));
    assert_eq!(world_to_tiled_coords(-100, 100, 16), (0, 0));
    assert_eq!(world_to_tiled_coords(i64::MAX, i64::MIN, 1), (u32::MAX, u32::MAX));
    assert_eq!(world_to_tiled_coords(i64::MIN, i64::MAX, 1), (0, 0));
    assert_eq!(world_to_tiled_coords(100, -100, u32::MAX), (0, 0));
}

#[test]
fn load_errors_from_outside_errors() {
    let json_error = serde_json::from_str::<serde_json::Value>("{").unwrap_err();
    let detail = json_error.to_string();
    let error = TiledLoadError::from_json_error(json_error);
    assert_eq!(error.kind, LevelError::MalformedHeader);
    assert_eq!(error.message, format!("JSON Parse Error: {}", detail));
    assert!(!detail.is_empty());

    let io_error = std::io::Error::new(std::io::ErrorKind::NotFound, "no such level");
    let error = TiledLoadError::from_io_error(io_error);
    assert_eq!(error.kind, LevelError::Io);
    assert_eq!(error.message, "IO Error: no such level");
    assert_eq!(error.to_text(), "Tiled Load Error: IO Error: no such level");

    assert_eq!(TiledLoadError::io_error("x").message, "IO Error: x");
    assert_eq!(TiledLoadError::json_error("y").message, "JSON Parse Error: y");
}
