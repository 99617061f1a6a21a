use tile_level::error::LevelError;
use tile_level::level::LevelData;
use tile_level::symbol_map::LevelSymbolMap;
use tile_level::symbol_tools::{
    count_symbols_in_level, create_blank_symbol_level, create_sample_symbol_level,
    create_symbol_reference, get_symbol_info, replace_symbols_in_level,
};
use tile_level::symbols::{
    level_to_symbols, level_to_symbols_with_map, parse_level_from_symbols,
    parse_level_from_symbols_with_map, validate_symbol_level, validate_symbol_level_with_map,
};

#[test]
fn test_symbol_mapping() {
    let symbol_map = LevelSymbolMap::new();
    assert_eq!(symbol_map.get_tile('G'), Some(180));
    assert_eq!(symbol_map.get_tile('.'), Some(255));
    assert_eq!(symbol_map.get_symbol(180), Some('G'));
    assert_eq!(symbol_map.get_symbol(255), Some('.'));
}

#[test]
fn test_parse_simple_level() {
    let level_text = "GGG\nSSS\n...";
    let result = parse_level_from_symbols(level_text);
    assert!(result.is_ok());

    let level_data = result.unwrap();
    assert_eq!(level_data.width, 3);
    assert_eq!(level_data.height, 3);
    assert_eq!(level_data.tiles[0][0], 180); // G
    assert_eq!(level_data.tiles[1][0], 176); // S
    assert_eq!(level_data.tiles[2][0], 255); // .
}

#[test]
fn test_level_validation() {
    let valid_level = "GGG\nSSS\n...";
    assert!(validate_symbol_level(valid_level).is_ok());

    let invalid_level = "GGG\nSS\n..."; // Different widths
    assert!(validate_symbol_level(invalid_level).is_err());
}

#[test]
fn default_map_knows_every_listed_symbol() {
    let map = LevelSymbolMap::new();
    let expected = [
        ('.', 255),
        ('G', 180),
        ('S', 176),
        ('B', 184),
        ('R', 177),
        ('P', 181),
        ('W', 182),
        ('M', 183),
        ('F', 183),
        ('T', 185),
        ('C', 187),
        ('^', 188),
        ('~', 189),
        ('L', 190),
        ('#', 176),
        ('=', 181),
        ('|', 176),
        ('+', 184),
        ('*', 187),
    ];
    for (symbol, tile) in expected {
        assert_eq!(map.get_tile(symbol), Some(tile));
    }
    assert_eq!(map.get_tile('?'), None);
    assert_eq!(map.get_tile('z'), None);
}

#[test]
fn default_map_writes_the_first_listed_symbol() {
    let map = LevelSymbolMap::new();
    assert_eq!(map.get_symbol(176), Some('S'));
    assert_eq!(map.get_symbol(181), Some('P'));
    assert_eq!(map.get_symbol(183), Some('M'));
    assert_eq!(map.get_symbol(184), Some('B'));
    assert_eq!(map.get_symbol(187), Some('C'));
    assert_eq!(map.get_symbol(177), Some('R'));
    assert_eq!(map.get_symbol(1), None);
}

#[test]
fn written_symbols_read_back_as_their_tiles() {
    let map = LevelSymbolMap::new();
    for tile in 0..300u32 {
        if let Some(symbol) = map.get_symbol(tile) {
            assert_eq!(map.get_tile(symbol), Some(tile));
        }
    }
}

#[test]
fn custom_map_has_the_empty_symbol_and_the_given_pairs() {
    let map = LevelSymbolMap::custom(vec![('a', 1), ('b', 2), ('a', 3), ('c', 2)]);
    assert_eq!(map.get_tile('.'), Some(255));
    assert_eq!(map.get_tile('a'), Some(3));
    assert_eq!(map.get_tile('b'), Some(2));
    assert_eq!(map.get_tile('c'), Some(2));
    assert_eq!(map.get_symbol(255), Some('.'));
    assert_eq!(map.get_symbol(3), Some('a'));
    assert_eq!(map.get_symbol(2), Some('b'));
    assert_eq!(map.get_symbol(1), None);
}

#[test]
fn add_mapping_changes_both_directions() {
    let mut map = LevelSymbolMap::new();
    map.add_mapping('X', 42);
    assert_eq!(map.get_tile('X'), Some(42));
    assert_eq!(map.get_symbol(42), Some('X'));
    map.add_mapping('G', 7);
    assert_eq!(map.get_tile('G'), Some(7));
    assert_eq!(map.get_symbol(7), Some('G'));
    assert_eq!(map.get_symbol(180), Some('G'));
    map.add_mapping('Y', 42);
    assert_eq!(map.get_symbol(42), Some('Y'));
    assert_eq!(map.get_tile('X'), Some(42));
}

#[test]
fn default_is_the_default_alphabet() {
    let map = LevelSymbolMap::default();
    assert_eq!(map.get_tile('G'), Some(180));
    assert_eq!(map.get_symbol(255), Some('.'));
}

#[test]
fn symbol_parse_of_three_rows() {
    let level = parse_level_from_symbols("GGG\nSSS\n...\n").unwrap();
    assert_eq!(level.width, 3);
    assert_eq!(level.height, 3);
    assert_eq!(level.tiles, vec![vec![180, 180, 180], vec![176, 176, 176], vec![255, 255, 255]]);
}

#[test]
fn symbol_parse_with_comment_and_blank_line() {
    let level = parse_level_from_symbols("// hi\n\nGG\n..").unwrap();
    assert_eq!(level.width, 2);
    assert_eq!(level.height, 2);
    assert_eq!(level.tiles, vec![vec![180, 180], vec![255, 255]]);
}

#[test]
fn symbol_parse_pads_short_lines_and_reads_unknown_as_empty() {
    let level = parse_level_from_symbols("G\nSSS\nGz").unwrap();
    assert_eq!(level.width, 3);
    assert_eq!(level.height, 3);
    assert_eq!(level.tiles, vec![vec![180, 255, 255], vec![176, 176, 176], vec![180, 255, 255]]);
}

#[test]
fn symbol_parse_ignores_indented_comments_and_white_lines() {
    let level = parse_level_from_symbols("   // note\n \t \nPP\r\n==\r\n").unwrap();
    assert_eq!(level.width, 2);
    assert_eq!(level.height, 2);
    assert_eq!(level.tiles, vec![vec![181, 181], vec![181, 181]]);
}

#[test]
fn symbol_parse_refuses_a_text_without_grid() {
    assert_eq!(parse_level_from_symbols("").unwrap_err(), LevelError::EmptyInput);
    assert_eq!(parse_level_from_symbols("\n\n// only a comment\n").unwrap_err(), LevelError::EmptyInput);
}

#[test]
fn symbol_parse_keeps_the_grid_shape() {
    let level = parse_level_from_symbols("G\n\nSS\n// x\nPPP\n").unwrap();
    assert_eq!(level.height as usize, level.tiles.len());
    for row in &level.tiles {
        assert_eq!(row.len(), level.width as usize);
    }
}

#[test]
fn symbol_parse_with_custom_map() {
    let map = LevelSymbolMap::custom(vec![('a', 1), ('é', 2)]);
    let level = parse_level_from_symbols_with_map("aé.\néa?", &map).unwrap();
    assert_eq!(level.width, 3);
    assert_eq!(level.tiles, vec![vec![1, 2, 255], vec![2, 1, 255]]);
}

#[test]
fn validation_reports_the_first_problem() {
    assert_eq!(validate_symbol_level(""), Err(LevelError::EmptyInput));
    assert_eq!(validate_symbol_level("// nothing\n"), Err(LevelError::EmptyInput));
    assert_eq!(
        validate_symbol_level("GGG\nSS\n..."),
        Err(LevelError::ShapeMismatch { expected: 3, got: 2, line: 2 })
    );
    assert_eq!(
        validate_symbol_level("GGG\nSzS\n..."),
        Err(LevelError::UnknownSymbol { ch: 'z', line: 2, col: 2 })
    );
    assert_eq!(
        validate_symbol_level("// c\nG?G\nSS"),
        Err(LevelError::UnknownSymbol { ch: '?', line: 1, col: 2 })
    );
    assert_eq!(validate_symbol_level("// c\n\nGGG\nSSS\n"), Ok(()));
}

#[test]
fn validation_with_custom_map() {
    let map = LevelSymbolMap::custom(vec![('a', 1)]);
    assert_eq!(validate_symbol_level_with_map("aa\n.a", &map), Ok(()));
    assert_eq!(
        validate_symbol_level_with_map("aa\nGa", &map),
        Err(LevelError::UnknownSymbol { ch: 'G', line: 2, col: 1 })
    );
}

#[test]
fn sample_level_is_valid_and_parses() {
    let sample = create_sample_symbol_level();
    assert!(sample.starts_with("// Sample Level - Lines starting with // are comments\n"));
    assert!(sample.ends_with("SSSSSSSSSSSSSSSSSSSSS"));
    assert_eq!(validate_symbol_level(&sample), Ok(()));
    let level = parse_level_from_symbols(&sample).unwrap();
    assert_eq!(level.width, 21);
    assert_eq!(level.height, 10);
    assert_eq!(level.tiles[0][5], 185);
    assert_eq!(level.tiles[3][10], 181);
    assert_eq!(level.tiles[8][0], 180);
    assert_eq!(level.tiles[9][20], 176);
}

#[test]
fn level_to_symbols_writes_one_line_per_row() {
    let level = LevelData { width: 3, height: 2, tiles: vec![vec![180, 255, 176], vec![1, 181, 190]] };
    assert_eq!(level_to_symbols(&level), "G.S\n?PL\n");
}

#[test]
fn level_to_symbols_with_custom_map() {
    let map = LevelSymbolMap::custom(vec![('a', 1), ('b', 2)]);
    let level = LevelData { width: 2, height: 2, tiles: vec![vec![1, 2], vec![255, 9]] };
    assert_eq!(level_to_symbols_with_map(&level, &map), "ab\n.?\n");
}

#[test]
fn symbol_round_trip_on_a_level() {
    let level = LevelData {
        width: 4,
        height: 3,
        tiles: vec![vec![255, 180, 255, 185], vec![176, 176, 255, 255], vec![190, 189, 188, 182]],
    };
    let text = level_to_symbols(&level);
    let back = parse_level_from_symbols(&text).unwrap();
    assert_eq!(back.width, level.width);
    assert_eq!(back.height, level.height);
    assert_eq!(back.tiles, level.tiles);
}

#[test]
fn symbol_round_trip_fails_for_a_row_that_reads_as_blank() {
    let map = LevelSymbolMap::custom(vec![(' ', 7)]);
    let level = LevelData { width: 1, height: 1, tiles: vec![vec![7]] };
    let text = level_to_symbols_with_map(&level, &map);
    assert_eq!(text, " \n");
    assert_eq!(parse_level_from_symbols_with_map(&text, &map).unwrap_err(), LevelError::EmptyInput);
}

#[test]
fn blank_symbol_level_is_dots() {
    assert_eq!(create_blank_symbol_level(3, 2), "...\n...\n");
    assert_eq!(create_blank_symbol_level(0, 2), "\n\n");
    assert_eq!(create_blank_symbol_level(4, 0), "");
    let level = parse_level_from_symbols(&create_blank_symbol_level(5, 4)).unwrap();
    assert_eq!(level.width, 5);
    assert_eq!(level.height, 4);
    assert!(level.tiles.iter().all(|row| row.iter().all(|&tile| tile == 255)));
}

#[test]
fn replace_symbols_applies_the_pairs_in_turn() {
    assert_eq!(replace_symbols_in_level("GGS\nS.G", &[('G', 'S')]), "SSS\nS.S");
    assert_eq!(replace_symbols_in_level("GGS", &[('G', 'S'), ('S', 'P')]), "PPP");
    assert_eq!(replace_symbols_in_level("GGS", &[('S', 'P'), ('G', 'S')]), "SSP");
    assert_eq!(replace_symbols_in_level("abc", &[]), "abc");
    assert_eq!(replace_symbols_in_level("", &[('a', 'b')]), "");
}

#[test]
fn count_symbols_counts_each_character_of_the_lines() {
    let counts = count_symbols_in_level("GG.\nS.G\r\n\r");
    assert_eq!(counts.get(&('G' as u32)), Some(&3));
    assert_eq!(counts.get(&('.' as u32)), Some(&2));
    assert_eq!(counts.get(&('S' as u32)), Some(&1));
    assert_eq!(counts.get(&('\r' as u32)), Some(&1));
    assert_eq!(counts.get(&('\n' as u32)), None);
    assert_eq!(counts.get(&('x' as u32)), None);
    assert_eq!(counts.len(), 4);
    assert!(count_symbols_in_level("").is_empty());
}

#[test]
fn symbol_info_lists_the_symbols_in_order() {
    let info = get_symbol_info();
    let lines: Vec<&str> = info.lines().collect();
    assert_eq!(lines.len(), 20);
    assert_eq!(lines[0], "Available symbols:");
    assert_eq!(lines[1], "  '#' - Solid wall (tile 176)");
    assert_eq!(lines[2], "  '*' - Special block (tile 187)");
    assert_eq!(lines[4], "  '.' - Empty space (tile 255)");
    assert_eq!(lines[9], "  'G' - Grass (tile 180)");
    assert_eq!(lines[19], "  '~' - Water (tile 189)");
    assert!(info.ends_with('\n'));
}

#[test]
fn symbol_reference_holds_the_list_and_the_sample() {
    let reference = create_symbol_reference();
    let expected = format!(
        "Symbol Reference for Level Editor:\n{}\n\nExample level:\n{}",
        get_symbol_info(),
        create_sample_symbol_level()
    );
    assert_eq!(reference, expected);
}
