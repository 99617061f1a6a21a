use tile_level::level::LevelData;
use tile_level::placement::{
    create_common_templates, create_template_level, get_valid_positions, place_template,
    place_templates, template_to_string, validate_template_placement,
};
use tile_level::templates::LevelTemplate;

const E: u32 = 255;

#[test]
fn ground_platform_pattern() {
    let template = LevelTemplate::ground_platform(3, 180, 176);
    assert_eq!(template.name, "Ground Platform");
    assert_eq!((template.width, template.height), (3, 2));
    assert_eq!(template.pattern, vec![vec![180, 180, 180], vec![176, 176, 176]]);
    assert_eq!(LevelTemplate::ground_platform(0, 1, 2).pattern, vec![Vec::<u32>::new(), Vec::new()]);
}

#[test]
fn floating_platform_pattern() {
    let template = LevelTemplate::floating_platform(4, 181);
    assert_eq!(template.name, "Floating Platform");
    assert_eq!((template.width, template.height), (4, 1));
    assert_eq!(template.pattern, vec![vec![181, 181, 181, 181]]);
}

#[test]
fn pillar_pattern() {
    let template = LevelTemplate::pillar(3, 176);
    assert_eq!(template.name, "Stone Pillar");
    assert_eq!((template.width, template.height), (1, 3));
    assert_eq!(template.pattern, vec![vec![176], vec![176], vec![176]]);
}

#[test]
fn staircase_of_three_steps() {
    let template = LevelTemplate::staircase(3, 3, 176);
    assert_eq!(template.name, "Staircase");
    assert_eq!(template.pattern, vec![vec![176, 176, 176], vec![E, 176, 176], vec![E, E, 176]]);
    let mut level = LevelData::new(5, 5).unwrap();
    assert!(place_template(&mut level, &template, 0, 0));
    for y in 0..5 {
        for x in 0..5 {
            if x >= 3 || y >= 3 {
                assert_eq!(level.tiles[y][x], E);
            }
        }
    }
    assert_eq!(level.tiles[0][0], 176);
    assert_eq!(level.tiles[2][0], E);
    assert_eq!(level.tiles[2][2], 176);
}

#[test]
fn staircase_cells_follow_the_diagonal() {
    let template = LevelTemplate::staircase(5, 3, 9);
    for y in 0..3usize {
        for x in 0..5usize {
            assert_eq!(template.pattern[y][x], if x >= y { 9 } else { E });
        }
    }
}

#[test]
fn room_pattern() {
    let template = LevelTemplate::room(4, 4, 1, 2);
    assert_eq!(template.name, "Room");
    assert_eq!(
        template.pattern,
        vec![vec![1, 1, 1, 1], vec![1, E, E, 1], vec![1, E, E, 1], vec![1, 2, 2, 1]]
    );
    assert_eq!(LevelTemplate::room(1, 1, 1, 2).pattern, vec![vec![1]]);
    assert!(LevelTemplate::room(0, 0, 1, 2).pattern.is_empty());
    assert!(LevelTemplate::tower(0, 0, 1, 2).pattern.is_empty());
    assert!(LevelTemplate::pit(0, 0, 1).pattern.is_empty());
    assert_eq!(LevelTemplate::room(3, 1, 1, 2).pattern, vec![vec![1, 2, 1]]);
}

#[test]
fn bridge_pattern() {
    let template = LevelTemplate::bridge(4, 181, 176);
    assert_eq!(template.name, "Bridge");
    assert_eq!((template.width, template.height), (4, 3));
    assert_eq!(
        template.pattern,
        vec![vec![181, 181, 181, 181], vec![176, E, E, 176], vec![176, E, E, 176]]
    );
    assert_eq!(LevelTemplate::bridge(1, 5, 6).pattern, vec![vec![5], vec![6], vec![6]]);
}

#[test]
fn tower_pattern() {
    let template = LevelTemplate::tower(4, 9, 1, 2);
    assert_eq!(template.name, "Tower");
    assert_eq!(
        template.pattern,
        vec![
            vec![1, E, E, 1],
            vec![1, E, E, 1],
            vec![1, E, E, 1],
            vec![1, 2, 2, 1],
            vec![1, E, E, 1],
            vec![1, E, E, 1],
            vec![1, E, E, 1],
            vec![1, 2, 2, 1],
            vec![2, 2, 2, 2],
        ]
    );
}

#[test]
fn pit_pattern() {
    let template = LevelTemplate::pit(4, 3, 7);
    assert_eq!(template.name, "Pit");
    assert_eq!((template.width, template.height), (4, 3));
    assert_eq!(template.pattern, vec![vec![7, E, E, 7], vec![7, E, E, 7], vec![7, 7, 7, 7]]);
}

#[test]
fn garden_pattern() {
    let template = LevelTemplate::garden(6, 4, 1, 2, 3);
    assert_eq!(template.name, "Garden");
    assert_eq!(
        template.pattern,
        vec![
            vec![2, 3, 1, 2, 3, 1],
            vec![1, 1, 2, 1, 1, 2],
            vec![1, 2, 1, 1, 2, 1],
            vec![1, 1, 1, 1, 1, 1],
        ]
    );
    let small = LevelTemplate::garden(2, 3, 1, 2, 3);
    assert_eq!(small.pattern, vec![vec![2, 1], vec![1, 1], vec![1, 1]]);
}

#[test]
fn cave_entrance_pattern() {
    let template = LevelTemplate::cave_entrance(6, 6, 1);
    assert_eq!(template.name, "Cave Entrance");
    assert_eq!(
        template.pattern,
        vec![
            vec![1, 1, 1, E, 1, 1],
            vec![1, E, E, E, E, E],
            vec![1, E, E, E, E, E],
            vec![E, E, E, E, E, E],
            vec![1, E, E, E, E, E],
            vec![1, E, E, E, E, E],
        ]
    );
    let narrow = LevelTemplate::cave_entrance(1, 3, 4);
    assert_eq!(narrow.pattern, vec![vec![4], vec![E], vec![4]]);
}

#[test]
fn every_template_has_the_pattern_shape() {
    for template in create_common_templates() {
        assert_eq!(template.pattern.len(), template.height as usize);
        for row in &template.pattern {
            assert_eq!(row.len(), template.width as usize);
        }
    }
}

#[test]
fn pattern_shape_is_checked() {
    let mut template = LevelTemplate::room(4, 3, 1, 2);
    assert!(template.is_well_formed());
    template.pattern[1].pop();
    assert!(!template.is_well_formed());
    template.pattern[1].push(0);
    template.height = 4;
    assert!(!template.is_well_formed());
}

#[test]
fn common_templates_in_order() {
    let templates = create_common_templates();
    let names: Vec<&str> = templates.iter().map(|t| t.name.as_str()).collect();
    assert_eq!(
        names,
        vec![
            "Ground Platform",
            "Floating Platform",
            "Stone Pillar",
            "Staircase",
            "Room",
            "Bridge",
            "Tower",
            "Pit",
            "Garden",
            "Cave Entrance"
        ]
    );
    let sizes: Vec<(u32, u32)> = templates.iter().map(|t| (t.width, t.height)).collect();
    assert_eq!(
        sizes,
        vec![(10, 2), (5, 1), (1, 6), (5, 5), (8, 6), (8, 3), (4, 12), (4, 3), (6, 4), (6, 6)]
    );
    assert_eq!(templates[0].pattern[0][0], 180);
    assert_eq!(templates[0].pattern[1][0], 176);
    assert_eq!(templates[8].pattern[0][1], 185);
}

#[test]
fn placement_bounds() {
    let template = LevelTemplate::floating_platform(3, 181);
    for y in 0..4 {
        for x in 0..6 {
            let mut level = LevelData::new(5, 3).unwrap();
            let fits = x + 3 <= 5 && y + 1 <= 3;
            assert_eq!(validate_template_placement(&level, &template, x, y), fits);
            assert_eq!(place_template(&mut level, &template, x, y), fits);
            if !fits {
                assert!(level.tiles.iter().all(|row| row.iter().all(|&tile| tile == E)));
            }
        }
    }
    let mut level = LevelData::new(5, 3).unwrap();
    assert!(!place_template(&mut level, &template, u32::MAX, 0));
    assert!(!place_template(&mut level, &template, 0, u32::MAX));
}

#[test]
fn placement_is_transparent() {
    let mut level = LevelData::filled(5, 5, 7);
    let template = LevelTemplate::staircase(3, 3, 176);
    assert!(place_template(&mut level, &template, 1, 2));
    assert_eq!(
        level.tiles,
        vec![
            vec![7, 7, 7, 7, 7],
            vec![7, 7, 7, 7, 7],
            vec![7, 176, 176, 176, 7],
            vec![7, 7, 176, 176, 7],
            vec![7, 7, 7, 176, 7],
        ]
    );
}

#[test]
fn placing_several_templates() {
    let mut level = LevelData::new(6, 4).unwrap();
    let placements = vec![
        (LevelTemplate::ground_platform(6, 180, 176), 0, 2),
        (LevelTemplate::pillar(3, 9), 2, 0),
        (LevelTemplate::pillar(3, 9), 2, 2),
        (LevelTemplate::floating_platform(2, 181), 4, 0),
    ];
    let done = place_templates(&mut level, &placements);
    assert_eq!(done, vec![true, true, false, true]);
    assert_eq!(
        level.tiles,
        vec![
            vec![E, E, 9, E, 181, 181],
            vec![E, E, 9, E, E, E],
            vec![180, 180, 9, 180, 180, 180],
            vec![176, 176, 176, 176, 176, 176],
        ]
    );
    assert!(place_templates(&mut level, &[]).is_empty());
}

#[test]
fn valid_positions_in_row_major_order() {
    let level = LevelData::new(4, 3).unwrap();
    let template = LevelTemplate::floating_platform(3, 1);
    assert_eq!(get_valid_positions(&level, &template), vec![(0, 0), (1, 0), (0, 1), (1, 1), (0, 2), (1, 2)]);
    let tall = LevelTemplate::pillar(3, 1);
    assert_eq!(get_valid_positions(&level, &tall), vec![(0, 0), (1, 0), (2, 0), (3, 0)]);
    let big = LevelTemplate::room(5, 2, 1, 2);
    assert!(get_valid_positions(&level, &big).is_empty());
    let whole = LevelTemplate::room(4, 3, 1, 2);
    assert_eq!(get_valid_positions(&level, &whole), vec![(0, 0)]);
    let none = LevelTemplate::floating_platform(0, 1);
    assert_eq!(get_valid_positions(&level, &none).len(), 12);
}

#[test]
fn valid_positions_are_those_where_placement_succeeds() {
    let template = LevelTemplate::bridge(4, 1, 2);
    let level = LevelData::new(7, 6).unwrap();
    let positions = get_valid_positions(&level, &template);
    let mut expected = Vec::new();
    for y in 0..6 {
        for x in 0..7 {
            let mut copy = level.clone();
            if place_template(&mut copy, &template, x, y) {
                expected.push((x, y));
            }
        }
    }
    assert_eq!(positions, expected);
}

#[test]
fn template_level_layout() {
    let level = create_template_level(45, 20);
    assert_eq!((level.width, level.height), (45, 20));
    assert_eq!(level.tiles.len(), 20);
    assert!(level.tiles.iter().all(|row| row.len() == 45));
    for x in 0..40 {
        assert_eq!(level.tiles[18][x], 180);
        assert_eq!(level.tiles[19][x], 176);
    }
    for x in 40..45 {
        assert_eq!(level.tiles[19][x], E);
    }
    for x in 10..15 {
        assert_eq!(level.tiles[12][x], 181);
    }
    for x in 20..25 {
        assert_eq!(level.tiles[8][x], 181);
    }
    for x in 30..35 {
        assert_eq!(level.tiles[14][x], 181);
    }
    for y in 12..18 {
        assert_eq!(level.tiles[y][5], 176);
    }
    assert_eq!(level.tiles[12][35], 176);
    assert_eq!(level.tiles[12][36], 176);
    assert_eq!(level.tiles[12][42], 176);
    assert_eq!(level.tiles[13][36], E);
    assert_eq!(level.tiles[17][36], 180);
    assert_eq!(level.tiles[17][35], 176);
    assert_eq!(level.tiles[0][0], E);
}

#[test]
fn template_level_leaves_out_what_does_not_fit() {
    let level = create_template_level(10, 12);
    for x in 0..10 {
        assert_eq!(level.tiles[10][x], 180);
        assert_eq!(level.tiles[11][x], 176);
    }
    assert_eq!(level.tiles[4][5], 176);
    assert_eq!(level.tiles[0][9], E);
    assert_eq!(level.tiles[4][0], 176);
    assert_eq!(level.tiles[4][7], 176);
    assert_eq!(level.tiles[9][1], 180);
}

#[test]
fn template_preview() {
    let template = LevelTemplate::staircase(3, 2, 176);
    assert_eq!(template_to_string(&template), "Template: Staircase (3x2)\nSSS\n.SS\n");
    let garden = LevelTemplate::garden(3, 3, 180, 183, 185);
    assert_eq!(template_to_string(&garden), "Template: Garden (3x3)\nFTG\nGGF\nGGG\n");
    let other = LevelTemplate::floating_platform(2, 181);
    assert_eq!(template_to_string(&other), "Template: Floating Platform (2x1)\nPP\n");
    let odd = LevelTemplate::pillar(2, 77);
    assert_eq!(template_to_string(&odd), "Template: Stone Pillar (1x2)\n#\n#\n");
}
