use octoplat_game::segment_linker::segment::{ParsedSegment, PooledLevel};

fn level(name: &str, content: &str) -> PooledLevel {
    PooledLevel { name: name.to_string(), content: content.to_string() }
}

fn rows(seg: &ParsedSegment) -> Vec<String> {
    seg.tiles.iter().map(|r| r.iter().collect()).collect()
}

#[test]
fn parses_tilemap_after_header() {
    let l = level("room", "name: room\n---\n#####\n#P  #\n#  >#\n#####");
    let seg = ParsedSegment::from_pooled_level(&l).unwrap();
    assert_eq!(seg.name, "room");
    assert_eq!(rows(&seg), vec!["#####", "#P  #", "#  >#", "#####"]);
    assert_eq!((seg.width, seg.height), (5, 4));
    assert_eq!(seg.spawn_pos, Some((1, 1)));
    assert_eq!(seg.exit_pos, Some((3, 2)));
}

#[test]
fn parse_trims_white_space_and_measures_longest_row() {
    let l = level("a", "  \n\n##\n#P#  \n\n");
    let seg = ParsedSegment::from_pooled_level(&l).unwrap();
    assert_eq!(rows(&seg), vec!["##", "#P#"]);
    assert_eq!((seg.width, seg.height), (3, 2));
    assert_eq!(seg.spawn_pos, Some((1, 1)));
    assert_eq!(seg.exit_pos, None);
}

#[test]
fn parse_keeps_last_marker() {
    let l = level("a", "P P\nP>>");
    let seg = ParsedSegment::from_pooled_level(&l).unwrap();
    assert_eq!(seg.spawn_pos, Some((0, 1)));
    assert_eq!(seg.exit_pos, Some((2, 1)));
}

#[test]
fn parse_of_blank_tilemap_is_none() {
    assert!(ParsedSegment::from_pooled_level(&level("a", "name: a\n---\n   \n")).is_none());
    assert!(ParsedSegment::from_pooled_level(&level("a", "")).is_none());
}

#[test]
fn strip_markers_blank_their_tiles() {
    let l = level("a", "#P>#");
    let mut seg = ParsedSegment::from_pooled_level(&l).unwrap();
    seg.strip_spawn();
    assert_eq!(rows(&seg), vec!["# >#"]);
    assert_eq!(seg.spawn_pos, None);
    assert_eq!(seg.exit_pos, Some((2, 0)));
    seg.strip_exit();
    assert_eq!(rows(&seg), vec!["#  #"]);
    assert_eq!(seg.exit_pos, None);
    seg.strip_exit();
    assert_eq!(rows(&seg), vec!["#  #"]);
}

#[test]
fn get_tile_is_wall_outside() {
    let seg = ParsedSegment::from_pooled_level(&level("a", "ab\nc")).unwrap();
    assert_eq!(seg.get_tile(1, 0), 'b');
    assert_eq!(seg.get_tile(1, 1), '#');
    assert_eq!(seg.get_tile(0, 5), '#');
}

#[test]
fn normalize_width_pads_short_rows() {
    let mut seg = ParsedSegment::from_pooled_level(&level("a", "#P##\n#\n##")).unwrap();
    seg.normalize_width();
    assert_eq!(rows(&seg), vec!["#P##", "####", "####"]);
    assert_eq!(seg.width, 4);
}

#[test]
fn pad_to_min_height_adds_wall_rows_around() {
    let mut seg = ParsedSegment::from_pooled_level(&level("a", "#P#\n# >")).unwrap();
    seg.pad_to_min_height(5);
    assert_eq!(rows(&seg), vec!["###", "#P#", "# >", "###", "###"]);
    assert_eq!(seg.height, 5);
    assert_eq!(seg.spawn_pos, Some((1, 1)));
    assert_eq!(seg.exit_pos, Some((2, 2)));
}

#[test]
fn pad_to_min_height_keeps_tall_segments() {
    let mut seg = ParsedSegment::from_pooled_level(&level("a", "#\n#\n#")).unwrap();
    seg.pad_to_min_height(2);
    assert_eq!(seg.height, 3);
    assert_eq!(rows(&seg), vec!["#", "#", "#"]);
}

#[test]
fn parse_trims_tabs_and_carriage_returns() {
    let seg = ParsedSegment::from_pooled_level(&level("a", "\t##\r\n#P#\t\u{a0}")).unwrap();
    assert_eq!(rows(&seg), vec!["##", "#P#"]);
    assert_eq!((seg.width, seg.height), (3, 2));
}
