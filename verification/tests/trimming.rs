use octoplat_game::segment_linker::trimming::{find_content_bounds, is_content_tile, trim_tilemap, trim_tilemap_string};

#[test]
fn test_find_content_bounds_simple() {
    let tiles = vec![
        vec!['#', '#', '#', '#', '#'],
        vec!['#', ' ', 'P', ' ', '#'],
        vec!['#', ' ', '=', ' ', '#'],
        vec!['#', '#', '#', '#', '#'],
    ];
    let bounds = find_content_bounds(&tiles);
    assert_eq!(bounds, Some((2, 1, 2, 2)));
}

#[test]
fn test_trim_tilemap_removes_padding() {
    let tiles = vec![
        vec!['#', '#', '#', '#', '#', '#', '#'],
        vec!['#', '#', '#', '#', '#', '#', '#'],
        vec!['#', '#', 'P', ' ', '>', '#', '#'],
        vec!['#', '#', '=', '=', '=', '#', '#'],
        vec!['#', '#', '#', '#', '#', '#', '#'],
        vec!['#', '#', '#', '#', '#', '#', '#'],
    ];
    let (_trimmed, width, height) = trim_tilemap(&tiles, 1);
    assert_eq!(height, 4);
    assert_eq!(width, 5);
}

#[test]
fn test_trim_preserves_all_content() {
    let tiles = vec![
        vec!['#', '#', '#', '#', '#'],
        vec!['#', 'P', '@', '*', '#'],
        vec!['#', '=', '^', 'C', '#'],
        vec!['#', '#', '#', '#', '#'],
    ];
    let (trimmed, _, _) = trim_tilemap(&tiles, 1);
    let flat: String = trimmed.iter().flat_map(|r| r.iter()).collect();
    assert!(flat.contains('P'));
    assert!(flat.contains('@'));
    assert!(flat.contains('*'));
    assert!(flat.contains('='));
    assert!(flat.contains('^'));
    assert!(flat.contains('C'));
}

#[test]
fn content_tiles_are_neither_walls_nor_air() {
    assert!(!is_content_tile('#'));
    assert!(!is_content_tile(' '));
    assert!(is_content_tile('P'));
    assert!(is_content_tile('_'));
}

#[test]
fn bounds_of_walls_only_are_none() {
    let tiles = vec![vec!['#', ' '], vec![' ', '#']];
    assert_eq!(find_content_bounds(&tiles), None);
    assert_eq!(find_content_bounds(&Vec::new()), None);
}

#[test]
fn trim_without_content_keeps_everything() {
    let tiles = vec![vec!['#', '#', '#'], vec!['#', ' ', '#']];
    let (trimmed, width, height) = trim_tilemap(&tiles, 2);
    assert_eq!(trimmed, tiles);
    assert_eq!((width, height), (3, 2));
}

#[test]
fn trim_exact_region_with_margin() {
    let tiles = vec![
        vec!['#', '#', '#', '#', '#', '#', '#'],
        vec!['#', '#', '#', '#', '#', '#', '#'],
        vec!['#', '#', 'P', ' ', '>', '#', '#'],
        vec!['#', '#', '=', '=', '=', '#', '#'],
        vec!['#', '#', '#', '#', '#', '#', '#'],
        vec!['#', '#', '#', '#', '#', '#', '#'],
    ];
    let (trimmed, _, _) = trim_tilemap(&tiles, 1);
    let expected = vec![
        vec!['#', '#', '#', '#', '#'],
        vec!['#', 'P', ' ', '>', '#'],
        vec!['#', '=', '=', '=', '#'],
        vec!['#', '#', '#', '#', '#'],
    ];
    assert_eq!(trimmed, expected);
}

#[test]
fn trim_margin_is_clamped_to_the_map() {
    let tiles = vec![vec!['P', '#', '#'], vec!['#', '#', '#']];
    let (trimmed, width, height) = trim_tilemap(&tiles, 5);
    assert_eq!((width, height), (3, 2));
    assert_eq!(trimmed, tiles);
}

#[test]
fn trim_pads_short_rows_with_walls() {
    let tiles = vec![vec!['#', '#', '#', '#'], vec!['#', 'P', '#', '#'], vec!['#']];
    let (trimmed, width, height) = trim_tilemap(&tiles, 1);
    assert_eq!((width, height), (3, 3));
    assert_eq!(trimmed[2], vec!['#', '#', '#']);
}

#[test]
fn trim_tilemap_string_round_trip() {
    let (s, w, h) = trim_tilemap_string("#####\n#####\n##P##\n#####\n#####", 1);
    assert_eq!(s, "###\n#P#\n###");
    assert_eq!((w, h), (3, 3));
}

#[test]
fn trimming_twice_changes_nothing() {
    let tiles = vec![
        vec!['#', '#', '#', '#', '#', '#', '#'],
        vec!['#', '#', '#', '#', '#', '#', '#'],
        vec!['#', '#', 'P', ' ', '>', '#', '#'],
        vec!['#', '#', '=', '=', '=', '#', '#'],
        vec!['#', '#', '#', '#', '#', '#', '#'],
        vec!['#', '#', '#', '#', '#', '#', '#'],
    ];
    let once = trim_tilemap(&tiles, 1);
    let twice = trim_tilemap(&once.0, 1);
    assert_eq!(twice, once);
}
