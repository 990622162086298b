use octoplat_game::segment_linker::corridors::{
    carve_horizontal_corridor, carve_vertical_corridor, find_entry_row, find_exit_row, find_vertical_entry_col,
    find_vertical_exit_col, punch_through_wall,
};
use octoplat_game::segment_linker::segment::{ParsedSegment, PooledLevel};
use octoplat_game::segment_linker::types::LinkDirection;

fn lerp(a: usize, b: usize, i: usize, d: usize) -> usize {
    let t = if d == 0 { 0.0 } else { i as f32 / d as f32 };
    (a as f32 * (1.0 - t) + b as f32 * t) as usize
}

fn room() -> ParsedSegment {
    let level = PooledLevel {
        name: "room".to_string(),
        content: "########\n#      #\n#      #\n#      #\n########".to_string(),
    };
    ParsedSegment::from_pooled_level(&level).unwrap()
}

fn make_solid_tilemap(width: usize, height: usize) -> Vec<Vec<char>> {
    vec![vec!['#'; width]; height]
}

#[test]
fn test_punch_through_wall_right_creates_bidirectional_opening() {
    let mut tilemap = make_solid_tilemap(30, 15);
    punch_through_wall(&mut tilemap, 15, 8, LinkDirection::Right, 3);
    for dx in 0..8 {
        assert_eq!(tilemap[8][15 + dx], ' ', "Should clear tile at x={}", 15 + dx);
    }
    for dx in 1..=10 {
        if 15 >= dx {
            assert_eq!(tilemap[8][15 - dx], ' ', "Should clear tile at x={}", 15 - dx);
        }
    }
    assert_eq!(tilemap[13][15], '_', "OneWay platform should be added below punch point");
}

#[test]
fn test_punch_through_wall_left_creates_bidirectional_opening() {
    let mut tilemap = make_solid_tilemap(30, 15);
    punch_through_wall(&mut tilemap, 15, 8, LinkDirection::Left, 3);
    for dx in 0..8 {
        if 15 >= dx {
            assert_eq!(tilemap[8][15 - dx], ' ', "Should clear tile at x={}", 15 - dx);
        }
    }
    for dx in 1..=10 {
        if 15 + dx < 30 {
            assert_eq!(tilemap[8][15 + dx], ' ', "Should clear tile at x={}", 15 + dx);
        }
    }
}

#[test]
fn test_punch_through_wall_clears_vertical_corridor_height() {
    let mut tilemap = make_solid_tilemap(30, 10);
    let corridor_height = 4;
    punch_through_wall(&mut tilemap, 15, 6, LinkDirection::Right, corridor_height);
    for dy in 0..corridor_height {
        assert_eq!(tilemap[6 - dy][15], ' ', "Should clear tile at y={}", 6 - dy);
    }
}

#[test]
fn test_punch_through_wall_vertical_down() {
    let mut tilemap = make_solid_tilemap(20, 20);
    punch_through_wall(&mut tilemap, 10, 10, LinkDirection::Down, 3);
    for dy in 0..6 {
        if 10 + dy < 20 {
            assert_eq!(tilemap[10 + dy][10], ' ', "Should clear tile at y={}", 10 + dy);
        }
    }
    for dy in 1..=6 {
        if 10 >= dy {
            assert_eq!(tilemap[10 - dy][10], ' ', "Should clear tile at y={}", 10 - dy);
        }
    }
}

#[test]
fn exit_and_entry_rows_meet_open_space_mid_height() {
    let seg = room();
    assert_eq!(find_exit_row(&seg, 10, 100, 2), 12);
    assert_eq!(find_entry_row(&seg, 10, 100, 2), 12);
}

#[test]
fn rows_fall_back_to_the_middle() {
    let level = PooledLevel { name: "w".to_string(), content: "####\n####\n####\n####".to_string() };
    let seg = ParsedSegment::from_pooled_level(&level).unwrap();
    assert_eq!(find_exit_row(&seg, 3, 100, 1), 5);
    assert_eq!(find_entry_row(&seg, 3, 100, 1), 5);
}

#[test]
fn vertical_columns_meet_passable_tiles() {
    let seg = room();
    assert_eq!(find_vertical_exit_col(&seg, 7, 100), 9);
    assert_eq!(find_vertical_entry_col(&seg, 7, 100), 9);
    // Columns at or past the limit are not taken: the middle is.
    assert_eq!(find_vertical_exit_col(&seg, 7, 8), 11);
}

#[test]
fn horizontal_corridor_clears_and_adds_platforms() {
    let mut tilemap = make_solid_tilemap(20, 12);
    let path: Vec<usize> = (0..4).map(|i| lerp(6, 6, i, 3)).collect();
    carve_horizontal_corridor(&mut tilemap, 5, 6, 4, 6, 3, &path);
    for y in 0..12 {
        for x in 0..20 {
            let expected = if (5..9).contains(&x) && (3..=7).contains(&y) {
                if y == 6 && (x == 6 || x == 7) { '_' } else { ' ' }
            } else {
                '#'
            };
            assert_eq!(tilemap[y][x], expected, "tile at ({}, {})", x, y);
        }
    }
}

#[test]
fn vertical_corridor_clears_shaft_with_side_platforms() {
    let mut tilemap = make_solid_tilemap(20, 20);
    let shaft: Vec<usize> = (0..10).map(|k| lerp(10, 10, k, 10)).collect();
    carve_vertical_corridor(&mut tilemap, 10, 12, 3, 5, 10, &shaft);
    for y in 0..20 {
        for x in 0..20 {
            let expected = if (y == 5 || y == 13) && (x == 12 || x == 13) {
                '_'
            } else if y == 9 && (x == 8 || x == 9) {
                '_'
            } else if (5..15).contains(&y) && (8..13).contains(&x) {
                ' '
            } else {
                '#'
            };
            assert_eq!(tilemap[y][x], expected, "tile at ({}, {})", x, y);
        }
    }
}
