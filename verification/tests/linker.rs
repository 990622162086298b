use octoplat_game::segment_linker::linker::SegmentLinker;
use octoplat_game::segment_linker::segment::PooledLevel;
use octoplat_game::segment_linker::types::{LayoutStrategy, SegmentLinkerConfig};

fn lerp(a: usize, b: usize, i: usize, d: usize) -> usize {
    let t = if d == 0 { 0.0 } else { i as f32 / d as f32 };
    (a as f32 * (1.0 - t) + b as f32 * t) as usize
}

fn config(layout: LayoutStrategy) -> SegmentLinkerConfig {
    SegmentLinkerConfig {
        seed: 7,
        segment_count: 3,
        corridor_width: 6,
        corridor_height: 5,
        layout,
        corridor_column_search_min: 2,
    }
}

fn room(name: &str) -> PooledLevel {
    PooledLevel {
        name: name.to_string(),
        content: format!("name: {}\n---\n########\n#P     #\n#      #\n#     >#\n########", name),
    }
}

fn rows(tilemap: &str) -> Vec<&str> {
    tilemap.split('\n').collect()
}

fn count(tilemap: &str, c: char) -> usize {
    tilemap.chars().filter(|&t| t == c).count()
}

#[test]
fn linking_nothing_fails() {
    let mut linker = SegmentLinker::new(config(LayoutStrategy::Vertical));
    let res = linker.link(&Vec::new(), &lerp);
    assert!(!res.success);
    assert_eq!(res.tilemap, "");
    assert_eq!((res.width, res.height), (0, 0));
    assert!(res.segment_names.is_empty());
    assert_eq!(res.layout, LayoutStrategy::Vertical);
}

#[test]
fn linking_blank_levels_fails() {
    let mut linker = SegmentLinker::new(config(LayoutStrategy::Grid));
    let blank = PooledLevel { name: "blank".to_string(), content: "name: blank\n---\n\n".to_string() };
    let res = linker.link(&vec![blank], &lerp);
    assert!(!res.success);
    assert_eq!(res.layout, LayoutStrategy::Grid);
}

#[test]
fn linear_link_sizes_and_names() {
    let mut linker = SegmentLinker::new(config(LayoutStrategy::Linear));
    let res = linker.link(&vec![room("a"), room("b")], &lerp);
    assert!(res.success);
    assert_eq!(res.layout, LayoutStrategy::Linear);
    assert_eq!(res.segment_names, vec!["a".to_string(), "b".to_string()]);
    // Two 8-wide segments and one 6-wide corridor; padded to 20 rows.
    assert_eq!((res.width, res.height), (22, 20));
    let lines = rows(&res.tilemap);
    assert_eq!(lines.len(), 20);
    assert!(lines.iter().all(|l| l.chars().count() == 22));
    assert_eq!(count(&res.tilemap, 'P'), 1);
    assert_eq!(count(&res.tilemap, '>'), 1);
}

#[test]
fn vertical_link_stacks_segments() {
    let mut linker = SegmentLinker::new(config(LayoutStrategy::Vertical));
    let res = linker.link(&vec![room("a"), room("b")], &lerp);
    assert!(res.success);
    assert_eq!((res.width, res.height), (8, 45));
    let lines = rows(&res.tilemap);
    assert_eq!(lines.len(), 45);
    assert!(lines.iter().all(|l| l.chars().count() == 8));
}

#[test]
fn alternating_link_zig_zags() {
    let mut linker = SegmentLinker::new(config(LayoutStrategy::Alternating));
    let res = linker.link(&vec![room("a"), room("b"), room("c")], &lerp);
    assert!(res.success);
    assert_eq!((res.width, res.height), (36, 45));
    assert_eq!(res.segment_names.len(), 3);
    let lines = rows(&res.tilemap);
    assert_eq!(lines.len(), 45);
    assert!(lines.iter().all(|l| l.chars().count() == 36));
}

#[test]
fn grid_link_uses_square_cells() {
    let mut linker = SegmentLinker::new(config(LayoutStrategy::Grid));
    let res = linker.link(&vec![room("a"), room("b"), room("c")], &lerp);
    assert!(res.success);
    // Two columns of 14-wide cells, two rows of 25-tall cells.
    assert_eq!((res.width, res.height), (28, 50));
    let lines = rows(&res.tilemap);
    assert_eq!(lines.len(), 50);
    assert!(lines.iter().all(|l| l.chars().count() == 28));
}

#[test]
fn single_segment_gets_a_new_exit() {
    let mut linker = SegmentLinker::new(config(LayoutStrategy::Linear));
    let res = linker.link(&vec![room("solo")], &lerp);
    assert!(res.success);
    assert_eq!((res.width, res.height), (8, 20));
    let lines = rows(&res.tilemap);
    // The room sits seven rows down. As the first segment it loses its
    // exit; a new one goes on the floor furthest right in columns 3..5.
    assert_eq!(lines[7], "########");
    assert_eq!(lines[8], "#P     #");
    assert_eq!(lines[9], "#      #");
    assert_eq!(lines[10], "#   >  #");
    assert_eq!(lines[11], "########");
    assert_eq!(lines[0], "########");
}

#[test]
fn blank_levels_are_skipped() {
    let mut linker = SegmentLinker::new(config(LayoutStrategy::Linear));
    let blank = PooledLevel { name: "blank".to_string(), content: "   ".to_string() };
    let res = linker.link(&vec![blank, room("a")], &lerp);
    assert!(res.success);
    assert_eq!(res.segment_names, vec!["a".to_string()]);
}

