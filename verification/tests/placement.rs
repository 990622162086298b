use octoplat_game::segment_linker::placement::ensure_spawn_exit;
use octoplat_game::segment_linker::segment::{ParsedSegment, PooledLevel, SegmentPlacement};

fn grid(rows: &[&str]) -> Vec<Vec<char>> {
    rows.iter().map(|r| r.chars().collect()).collect()
}

fn text(g: &[Vec<char>]) -> Vec<String> {
    g.iter().map(|r| r.iter().collect()).collect()
}

fn box_segment() -> ParsedSegment {
    let content = "##########\n#        #\n#        #\n#        #\n#        #\n#        #\n##########\n##########";
    ParsedSegment::from_pooled_level(&PooledLevel { name: "box".to_string(), content: content.to_string() }).unwrap()
}

#[test]
fn ensure_spawn_exit_places_markers_on_floors() {
    let rows = [
        "##########",
        "#        #",
        "#        #",
        "#        #",
        "#        #",
        "#        #",
        "##########",
        "##########",
    ];
    let mut tilemap = grid(&rows);
    let segs = vec![box_segment()];
    let pls = vec![SegmentPlacement { segment_idx: 0, x: 0, y: 0 }];
    ensure_spawn_exit(&mut tilemap, &segs, 8, &pls);
    let mut expected: Vec<String> = rows.iter().map(|r| r.to_string()).collect();
    expected[5] = "#  P  >  #".to_string();
    assert_eq!(text(&tilemap), expected);
}

#[test]
fn ensure_spawn_exit_keeps_existing_markers() {
    let rows = ["#####", "#P >#", "#####"];
    let mut tilemap = grid(&rows);
    let segs = vec![box_segment()];
    let pls = vec![SegmentPlacement { segment_idx: 0, x: 0, y: 0 }];
    ensure_spawn_exit(&mut tilemap, &segs, 3, &pls);
    assert_eq!(tilemap, grid(&rows));
}

#[test]
fn ensure_spawn_exit_adds_platform_over_air() {
    // No floor anywhere: the marker goes on empty space and gets a platform.
    let rows = [
        "          ",
        "          ",
        "          ",
        "          ",
        "          ",
        "          ",
        "          ",
        "          ",
    ];
    let mut tilemap = grid(&rows);
    let segs = vec![box_segment()];
    let pls = vec![SegmentPlacement { segment_idx: 0, x: 0, y: 0 }];
    ensure_spawn_exit(&mut tilemap, &segs, 8, &pls);
    assert_eq!(tilemap[2][3], 'P');
    assert_eq!(tilemap[3][3], '_');
    assert_eq!(tilemap[2][6], '>');
    assert_eq!(tilemap[3][6], '_');
}

#[test]
fn ensure_spawn_exit_without_segments_does_nothing() {
    let rows = ["   ", "   "];
    let mut tilemap = grid(&rows);
    ensure_spawn_exit(&mut tilemap, &Vec::new(), 2, &Vec::new());
    assert_eq!(tilemap, grid(&rows));
}

#[test]
fn ensure_spawn_exit_reads_no_row_when_markers_exist() {
    // Rows of different lengths: nothing is searched, so nothing changes.
    let rows = ["#P", "#####", ">", ""];
    let mut tilemap = grid(&rows);
    let segs = vec![box_segment()];
    let pls = vec![SegmentPlacement { segment_idx: 0, x: 0, y: 0 }];
    ensure_spawn_exit(&mut tilemap, &segs, 4, &pls);
    assert_eq!(tilemap, grid(&rows));
}

#[test]
fn ensure_spawn_exit_forces_markers_into_walls() {
    let rows = ["####", "####", "####"];
    let mut tilemap = grid(&rows);
    let seg = ParsedSegment::from_pooled_level(&PooledLevel { name: "w".to_string(), content: "####\n####\n####".to_string() }).unwrap();
    let segs = vec![seg];
    let pls = vec![SegmentPlacement { segment_idx: 0, x: 0, y: 0 }];
    ensure_spawn_exit(&mut tilemap, &segs, 3, &pls);
    assert_eq!(text(&tilemap), vec!["####", "##P>", "####"]);
}
