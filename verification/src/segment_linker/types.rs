//! Types shared by the segment linker.

use vstd::prelude::*;

verus! {

/// Layout strategy for arranging segments.
#[derive(Clone, Copy, Debug, PartialEq, Eq, Structural)]
pub enum LayoutStrategy {
    /// Horizontal chain: segment, corridor, segment, ...
    Linear,
    /// Vertical stack, first segment at the bottom.
    Vertical,
    /// Zig-zag: right, up, right, up, ...
    Alternating,
    /// Two-dimensional grid.
    Grid,
}

/// Direction of a connection between two segments.
#[derive(Clone, Copy, Debug, PartialEq, Eq, Structural)]
pub enum LinkDirection {
    Right,
    Left,
    Up,
    Down,
}

/// A span of rows (horizontal link) or columns (vertical link).
#[derive(Clone, Debug)]
pub struct ConnectionZone {
    /// First row or column.
    pub start: usize,
    /// Last row or column.
    pub end: usize,
}

impl ConnectionZone {
    /// Builds a zone from its two ends.
    pub fn new(start: usize, end: usize) -> (z: Self)
        ensures
            z.start == start,
            z.end == end,
    {
        ConnectionZone { start, end }
    }

    /// Midpoint of the zone, rounded down.
    pub fn center(&self) -> (c: usize)
        requires
            self.start + self.end <= usize::MAX,
        ensures
            c == (self.start + self.end) / 2,
    {
        (self.start + self.end) / 2
    }

    /// Length of the zone, zero when `end` lies before `start`.
    pub fn size(&self) -> (s: usize)
        ensures
            s == if self.end >= self.start { self.end - self.start } else { 0 },
    {
        self.end.saturating_sub(self.start)
    }
}

/// Settings for linking segments.
#[derive(Clone, Debug)]
pub struct SegmentLinkerConfig {
    /// Random seed.
    pub seed: u64,
    /// Number of segments to link.
    pub segment_count: usize,
    /// Width of connecting corridors, in tiles.
    pub corridor_width: usize,
    /// Height clearance of corridors, in tiles.
    pub corridor_height: usize,
    /// Layout strategy.
    pub layout: LayoutStrategy,
    /// How far in from a segment's edge the search for a horizontal
    /// corridor's row starts.
    pub corridor_column_search_min: usize,
}

impl Default for SegmentLinkerConfig {
    /// Three segments in a line, joined by corridors six tiles long and
    /// five tall, with seed zero; the corridor row search starts at a
    /// segment's edge column.
    fn default() -> (c: Self)
        ensures
            c.seed == 0,
            c.segment_count == 3,
            c.corridor_width == 6,
            c.corridor_height == 5,
            c.layout == LayoutStrategy::Linear,
            c.corridor_column_search_min == 1,
    {
        SegmentLinkerConfig {
            seed: 0,
            segment_count: 3,
            corridor_width: 6,
            corridor_height: 5,
            layout: LayoutStrategy::Linear,
            corridor_column_search_min: 1,
        }
    }
}

/// A level made of linked segments.
#[derive(Clone, Debug)]
pub struct LinkedLevel {
    /// Tilemap text, one row per line.
    pub tilemap: String,
    /// Width in tiles.
    pub width: usize,
    /// Height in tiles.
    pub height: usize,
    /// Names of the segments used, in order.
    pub segment_names: Vec<String>,
    /// Whether linking succeeded.
    pub success: bool,
    /// Layout strategy used.
    pub layout: LayoutStrategy,
}

} // verus!
