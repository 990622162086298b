use octoplat_game::segment_linker::types::{ConnectionZone, LayoutStrategy, SegmentLinkerConfig};

#[test]
fn connection_zone_center_and_size() {
    let z = ConnectionZone::new(4, 10);
    assert_eq!((z.start, z.end), (4, 10));
    assert_eq!(z.center(), 7);
    assert_eq!(z.size(), 6);
}

#[test]
fn connection_zone_reversed_has_no_size() {
    let z = ConnectionZone::new(9, 3);
    assert_eq!(z.size(), 0);
    assert_eq!(z.center(), 6);
}

#[test]
fn default_config() {
    let c = SegmentLinkerConfig::default();
    assert_eq!((c.seed, c.segment_count, c.corridor_width, c.corridor_height), (0, 3, 6, 5));
    assert_eq!(c.layout, LayoutStrategy::Linear);
    assert_eq!(c.corridor_column_search_min, 1);
}
