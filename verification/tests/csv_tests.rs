use tile_level::csv::{level_to_csv, parse_level_text};
use tile_level::error::LevelError;
use tile_level::level::LevelData;

#[test]
fn csv_parse_of_two_rows() {
    let level = parse_level_text("3,2\n180,180,180\n176,255,176\n").unwrap();
    assert_eq!(level.width, 3);
    assert_eq!(level.height, 2);
    assert_eq!(level.tiles, vec![vec![180, 180, 180], vec![176, 255, 176]]);
}

#[test]
fn csv_parse_accepts_white_space_and_a_missing_last_line_feed() {
    let level = parse_level_text(" 2 , 2 \r\n 1 ,\t2\r\n+3, 4").unwrap();
    assert_eq!(level.width, 2);
    assert_eq!(level.height, 2);
    assert_eq!(level.tiles, vec![vec![1, 2], vec![3, 4]]);
}

#[test]
fn csv_parse_keeps_the_grid_shape() {
    let level = parse_level_text("4,3\n1,2,3,4\n5,6,7,8\n9,10,11,12\n").unwrap();
    assert_eq!(level.tiles.len(), level.height as usize);
    for row in &level.tiles {
        assert_eq!(row.len(), level.width as usize);
    }
}

#[test]
fn csv_parse_reads_large_tile_ids() {
    let level = parse_level_text("2,1\n4294967295,0\n").unwrap();
    assert_eq!(level.tiles, vec![vec![4294967295, 0]]);
}

#[test]
fn csv_parse_refuses_an_empty_text() {
    assert_eq!(parse_level_text("").unwrap_err(), LevelError::EmptyInput);
}

#[test]
fn csv_parse_refuses_a_malformed_header() {
    assert_eq!(parse_level_text("3\n1,2,3\n").unwrap_err(), LevelError::MalformedHeader);
    assert_eq!(parse_level_text("3,2,1\n1,2,3\n").unwrap_err(), LevelError::MalformedHeader);
    assert_eq!(parse_level_text("a,2\n").unwrap_err(), LevelError::MalformedHeader);
    assert_eq!(parse_level_text("3,-2\n").unwrap_err(), LevelError::MalformedHeader);
    assert_eq!(parse_level_text("3,\n").unwrap_err(), LevelError::MalformedHeader);
    assert_eq!(parse_level_text("\n3,2\n").unwrap_err(), LevelError::MalformedHeader);
    assert_eq!(parse_level_text("4294967296,1\n").unwrap_err(), LevelError::MalformedHeader);
}

#[test]
fn csv_parse_refuses_missing_rows() {
    assert_eq!(parse_level_text("3,2\n1,2,3\n").unwrap_err(), LevelError::MissingData);
    assert_eq!(parse_level_text("3,2").unwrap_err(), LevelError::MissingData);
}

#[test]
fn csv_parse_refuses_a_wrong_column_count() {
    assert_eq!(
        parse_level_text("3,2\n1,2,3\n4,5\n").unwrap_err(),
        LevelError::ShapeMismatch { expected: 3, got: 2, line: 3 }
    );
    assert_eq!(
        parse_level_text("2,1\n1,2,3\n").unwrap_err(),
        LevelError::ShapeMismatch { expected: 2, got: 3, line: 2 }
    );
}

#[test]
fn csv_parse_refuses_extra_lines() {
    assert_eq!(
        parse_level_text("2,1\n1,2\n3,4\n").unwrap_err(),
        LevelError::ShapeMismatch { expected: 1, got: 2, line: 3 }
    );
    assert_eq!(
        parse_level_text("2,1\n1,2\n\n").unwrap_err(),
        LevelError::ShapeMismatch { expected: 1, got: 2, line: 3 }
    );
}

#[test]
fn csv_parse_refuses_an_entry_that_is_no_number() {
    assert_eq!(
        parse_level_text("3,2\n1,2,3\n4,x,6\n").unwrap_err(),
        LevelError::NumberParse { line: 3, col: 2 }
    );
    assert_eq!(
        parse_level_text("2,1\n1,\n").unwrap_err(),
        LevelError::NumberParse { line: 2, col: 2 }
    );
    assert_eq!(
        parse_level_text("2,1\n1 2,3\n").unwrap_err(),
        LevelError::NumberParse { line: 2, col: 1 }
    );
    assert_eq!(
        parse_level_text("1,1\n4294967296\n").unwrap_err(),
        LevelError::NumberParse { line: 2, col: 1 }
    );
}

#[test]
fn csv_parse_reports_the_first_problem() {
    assert_eq!(
        parse_level_text("2,3\n1,x\n1\n").unwrap_err(),
        LevelError::NumberParse { line: 2, col: 2 }
    );
    assert_eq!(
        parse_level_text("2,3\n1,2\n1\n").unwrap_err(),
        LevelError::ShapeMismatch { expected: 2, got: 1, line: 3 }
    );
}

#[test]
fn csv_text_of_a_level() {
    let level = LevelData { width: 3, height: 2, tiles: vec![vec![180, 180, 180], vec![176, 255, 176]] };
    assert_eq!(level_to_csv(&level), "3,2\n180,180,180\n176,255,176\n");
    let single = LevelData { width: 1, height: 1, tiles: vec![vec![0]] };
    assert_eq!(level_to_csv(&single), "1,1\n0\n");
    let flat = LevelData { width: 2, height: 0, tiles: vec![] };
    assert_eq!(level_to_csv(&flat), "2,0\n");
}

#[test]
fn csv_round_trip() {
    let level = LevelData {
        width: 5,
        height: 3,
        tiles: vec![
            vec![0, 1, 255, 4294967295, 10],
            vec![100, 99, 1000, 7, 70],
            vec![180, 176, 184, 181, 255],
        ],
    };
    let back = parse_level_text(&level_to_csv(&level)).unwrap();
    assert_eq!(back.width, level.width);
    assert_eq!(back.height, level.height);
    assert_eq!(back.tiles, level.tiles);
}

#[test]
fn csv_round_trip_of_new_levels() {
    for (width, height) in [(1, 1), (200, 50), (7, 3)] {
        let level = LevelData::new(width, height).unwrap();
        let back = parse_level_text(&level_to_csv(&level)).unwrap();
        assert_eq!(back.width, width);
        assert_eq!(back.height, height);
        assert_eq!(back.tiles, level.tiles);
    }
}

#[test]
fn error_messages() {
    assert_eq!(LevelError::Io.message(), "I/O error");
    assert_eq!(LevelError::EmptyInput.message(), "Empty level file");
    assert_eq!(LevelError::MalformedHeader.message(), "Malformed level header");
    assert_eq!(LevelError::MissingData.message(), "Insufficient tile data");
    assert_eq!(
        LevelError::ShapeMismatch { expected: 3, got: 20, line: 105 }.message(),
        "Line 105: expected 3, got 20"
    );
    assert_eq!(
        LevelError::NumberParse { line: 2, col: 10 }.message(),
        "Invalid number at line 2, column 10"
    );
    assert_eq!(
        LevelError::UnknownSymbol { ch: 'z', line: 4, col: 7 }.message(),
        "Unknown symbol 'z' at line 4, column 7"
    );
    assert_eq!(LevelError::OutOfBounds { gx: 0, gy: 4294967295 }.message(), "Cell (0, 4294967295) is out of bounds");
    assert_eq!(
        LevelError::ClassificationConflict { tile_id: 32 }.message(),
        "Tile 32 is both solid and platform"
    );
}
