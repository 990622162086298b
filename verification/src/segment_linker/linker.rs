//! The segment linker: reads pool levels as segments, evens out their
//! sizes and links them with the configured layout.

use vstd::prelude::*;
use crate::level::visuals::cuts_inside_char;
use crate::level::visuals::tilemap_start;
use crate::segment_linker::assemble::{
    all_prepared, chain_length, dim_limit, heights, layout_input_ok, lerp_ok, level_text, max_of,
    max_segment_height, names_match, seg_fits, widths,
};
use crate::segment_linker::layout_alternating::{link_alternating, zigzag_height, zigzag_links, zigzag_placements, zigzag_width};
use crate::segment_linker::layout_grid::{cell_height, cell_width, grid_cols, grid_links, grid_placements, grid_rows, link_grid};
use crate::segment_linker::layout_linear::{link_linear, linear_links, linear_placements};
use crate::segment_linker::layout_vertical::{link_vertical, vertical_links, vertical_placements};
use crate::segment_linker::segment::{
    content_rows, last_marker, pad_row, parses_to, repeat_char, shift_marker, ParsedSegment,
    PooledLevel,
};
use crate::segment_linker::stitch::linked_text;
use crate::segment_linker::types::{LayoutStrategy, LinkedLevel, SegmentLinkerConfig};
use crate::text::{lemma_max_row_len, lemma_trimmed_rows_not_blank, max_row_len};

verus! {

/// Links pool levels into one level with a configured layout.
pub struct SegmentLinker {
    config: SegmentLinkerConfig,
}

/// Indices of the first `k` levels whose tilemap has rows, in order.
pub open spec fn kept_levels(levels: Seq<PooledLevel>, k: int) -> Seq<int>
    decreases k,
{
    if k <= 0 {
        Seq::empty()
    } else {
        let prev = kept_levels(levels, k - 1);
        if content_rows(levels[k - 1].content@).len() > 0 { prev.push(k - 1) } else { prev }
    }
}

/// Indices of the levels whose tilemap has rows.
pub open spec fn kept(levels: Seq<PooledLevel>) -> Seq<int> {
    kept_levels(levels, levels.len() as int)
}

/// Row counts of the kept levels' tilemaps.
pub open spec fn kept_heights(levels: Seq<PooledLevel>) -> Seq<int> {
    let ks = kept(levels);
    Seq::new(ks.len(), |j: int| content_rows(levels[ks[j]].content@).len() as int)
}

/// Height every segment is padded to: the tallest tilemap, and at least
/// twenty rows.
pub open spec fn min_link_height(levels: Seq<PooledLevel>) -> int {
    let m = max_of(kept_heights(levels), kept(levels).len() as int);
    if m >= 20 { m } else { 20 }
}

/// The segment read from `level`, each row padded with walls to the
/// longest row's length, then padded to `min_h` rows with wall rows, half
/// of them (rounded down) on top and the rest at the bottom, its markers
/// moving down with the tiles.
pub open spec fn ready_segment(level: &PooledLevel, min_h: int, seg: &ParsedSegment) -> bool {
    let rows = content_rows(level.content@);
    let w = max_row_len(rows);
    let h = rows.len() as int;
    let top = if h < min_h { (min_h - h) / 2 } else { 0 };
    let bottom = if h < min_h { (min_h - h) - top } else { 0 };
    let wall = repeat_char('#', w as nat);
    &&& seg.tile_grid() == Seq::new(top as nat, |_i: int| wall) + Seq::new(h as nat, |r: int| pad_row(rows[r], w as nat))
        + Seq::new(bottom as nat, |_i: int| wall)
    &&& seg.width == w
    &&& seg.height == (if h < min_h { min_h } else { h })
    &&& seg.name@ == level.name@
    &&& seg.spawn_pos == shift_marker(last_marker(rows, 'P'), top)
    &&& seg.exit_pos == shift_marker(last_marker(rows, '>'), top)
}

/// `ready` holds, in order, the segments read from the kept levels and
/// made ready for linking.
pub open spec fn ready_from(levels: Seq<PooledLevel>, ready: Seq<ParsedSegment>) -> bool {
    let ks = kept(levels);
    &&& ready.len() == ks.len()
    &&& forall|j: int| 0 <= j < ks.len() ==> ready_segment(&levels[ks[j]], min_link_height(levels), &#[trigger] ready[j])
}

/// What the layout `config.layout` makes of the ready segments: `linked`
/// are the segments after marker stripping, `res` the level, as the
/// layout's own function states.
pub open spec fn layout_result<F: Fn(usize, usize, usize, usize) -> usize>(
    config: SegmentLinkerConfig, ready: Seq<ParsedSegment>, linked: Seq<ParsedSegment>, lerp: &F, res: LinkedLevel,
) -> bool {
    let n = ready.len() as int;
    let cw = config.corridor_width as int;
    let ch = config.corridor_height as int;
    &&& all_prepared(ready, linked)
    &&& level_text(res.tilemap@, res.width as int, res.height as int)
    &&& res.width >= 2 ==> res.tilemap@.contains('P') && res.tilemap@.contains('>')
    &&& res.success
    &&& res.layout == config.layout
    &&& names_match(res.segment_names@, ready)
    &&& match config.layout {
        LayoutStrategy::Linear => {
            &&& res.width == chain_length(widths(ready), cw)
            &&& res.height == max_of(heights(ready), n)
            &&& linked_text(res.tilemap@, lerp, linked, linear_placements(linked, cw), linear_links(n, cw),
                res.width as int, res.height as int, &config)
        },
        LayoutStrategy::Vertical => {
            &&& res.width == max_of(widths(ready), n)
            &&& res.height == chain_length(heights(ready), ch)
            &&& linked_text(res.tilemap@, lerp, linked, vertical_placements(linked, ch), vertical_links(n, ch),
                res.width as int, res.height as int, &config)
        },
        LayoutStrategy::Alternating => {
            &&& res.width == zigzag_width(widths(ready), heights(ready), cw, ch, n)
            &&& res.height == zigzag_height(widths(ready), heights(ready), cw, ch, n)
            &&& linked_text(res.tilemap@, lerp, linked, zigzag_placements(linked, cw, ch), zigzag_links(n, cw, ch),
                res.width as int, res.height as int, &config)
        },
        LayoutStrategy::Grid => {
            &&& res.width == cell_width(ready, cw) * grid_cols(n)
            &&& res.height == cell_height(ready, ch) * grid_rows(n)
            &&& linked_text(res.tilemap@, lerp, linked, grid_placements(linked, cw, ch), grid_links(linked, cw, ch),
                res.width as int, res.height as int, &config)
        },
    }
}

/// The unsuccessful result: no tiles, no size, no segments.
pub open spec fn failed_link(res: LinkedLevel, layout: LayoutStrategy) -> bool {
    &&& res.tilemap@.len() == 0
    &&& res.width == 0
    &&& res.height == 0
    &&& res.segment_names@.len() == 0
    &&& !res.success
    &&& res.layout == layout
}

/// Widths of the ready segments: each kept level's longest row.
pub open spec fn ready_widths(levels: Seq<PooledLevel>) -> Seq<int> {
    let ks = kept(levels);
    Seq::new(ks.len(), |j: int| max_row_len(content_rows(levels[ks[j]].content@)))
}

/// Heights of the ready segments: each kept level's row count, raised to
/// `min_link_height`.
pub open spec fn ready_heights(levels: Seq<PooledLevel>) -> Seq<int> {
    let ks = kept(levels);
    let mh = min_link_height(levels);
    Seq::new(ks.len(), |j: int| {
        let h = content_rows(levels[ks[j]].content@).len() as int;
        if h < mh { mh } else { h }
    })
}

/// The level that `config.layout` builds from segments of widths `ws` and
/// heights `hs` stays within `dim_limit` (and a grid holds fewer than
/// 2^24 segments).
pub open spec fn layout_fits(config: SegmentLinkerConfig, ws: Seq<int>, hs: Seq<int>) -> bool {
    let n = ws.len() as int;
    let cw = config.corridor_width as int;
    let ch = config.corridor_height as int;
    match config.layout {
        LayoutStrategy::Linear => chain_length(ws, cw) <= dim_limit(),
        LayoutStrategy::Vertical => chain_length(hs, ch) <= dim_limit(),
        LayoutStrategy::Alternating => {
            &&& zigzag_width(ws, hs, cw, ch, n) <= dim_limit()
            &&& zigzag_height(ws, hs, cw, ch, n) <= dim_limit()
        },
        LayoutStrategy::Grid => {
            &&& n < 0x100_0000
            &&& (max_of(ws, n) + cw) * grid_cols(n) <= dim_limit()
            &&& (max_of(hs, n) + ch) * grid_rows(n) <= dim_limit()
        },
    }
}

/// What `link` needs of its levels and settings: every header can be cut
/// off without cutting a character, and the segments, corridors and the
/// level the layout builds stay within `dim_limit`.
pub open spec fn link_input_ok(levels: Seq<PooledLevel>, config: SegmentLinkerConfig) -> bool {
    let ks = kept(levels);
    &&& forall|i: int| 0 <= i < levels.len() ==> !cuts_inside_char(#[trigger] levels[i].content@)
    &&& ks.len() <= dim_limit()
    &&& forall|j: int| 0 <= j < ks.len() ==> #[trigger] ready_widths(levels)[j] <= dim_limit()
    &&& forall|j: int| 0 <= j < ks.len() ==> #[trigger] ready_heights(levels)[j] <= dim_limit()
    &&& config.corridor_width <= dim_limit()
    &&& config.corridor_height <= dim_limit()
    &&& config.corridor_column_search_min >= 1
    &&& ks.len() > 0 ==> layout_fits(config, ready_widths(levels), ready_heights(levels))
}

/// What linking `levels` with `config` gives: with no level whose tilemap
/// has rows, the unsuccessful result; otherwise what the layout makes of
/// the ready segments.
pub open spec fn link_outcome<F: Fn(usize, usize, usize, usize) -> usize>(
    levels: Seq<PooledLevel>, config: SegmentLinkerConfig, lerp: &F, res: LinkedLevel,
) -> bool {
    &&& kept(levels).len() == 0 ==> failed_link(res, config.layout)
    &&& kept(levels).len() > 0 ==> exists|ready: Seq<ParsedSegment>, linked: Seq<ParsedSegment>|
        #[trigger] ready_from(levels, ready) && #[trigger] layout_result(config, ready, linked, lerp, res)
}

/// The failed result for `layout`.
fn failed(layout: LayoutStrategy) -> (res: LinkedLevel)
    ensures
        failed_link(res, layout),
{
    LinkedLevel {
        tilemap: String::new(),
        width: 0,
        height: 0,
        segment_names: Vec::new(),
        success: false,
        layout,
    }
}

impl SegmentLinker {
    /// The linker's settings.
    pub closed spec fn settings(&self) -> SegmentLinkerConfig {
        self.config
    }

    /// A linker with the given settings.
    pub fn new(config: SegmentLinkerConfig) -> (s: Self)
        ensures
            s.settings() == config,
    {
        SegmentLinker { config }
    }

    /// Links the levels into one. With no levels, or none whose tilemap
    /// has rows, the result is unsuccessful and empty. Otherwise each level
    /// with rows becomes a segment (in order): its rows are padded with
    /// walls to the longest row, and it is padded to the height of the
    /// tallest segment, or twenty rows if that is more; then the configured
    /// layout links them, with `lerp` interpolating the corridors' paths.
    pub fn link<F: Fn(usize, usize, usize, usize) -> usize>(&mut self, segments: &Vec<PooledLevel>, lerp: &F) -> (res: LinkedLevel)
        requires
            link_input_ok(segments@, old(self).settings()),
            lerp_ok(lerp),
        ensures
            final(self).settings() == old(self).settings(),
            link_outcome(segments@, old(self).settings(), lerp, res),
    {
        let ghost levels = segments@;
        let ghost ks = kept(levels);
        let ghost config = self.config;
        if segments.len() == 0 {
            return failed(self.config.layout);
        }
        let mut parsed = parse_levels(segments);
        if parsed.len() == 0 {
            return failed(self.config.layout);
        }
        let ghost read = parsed@;
        let n = parsed.len();
        proof { lemma_kept_levels(levels, levels.len() as int); }
        widen_rows(&mut parsed);
        let ghost wide = parsed@;
        proof {
            assert forall|j: int| 0 <= j < n implies {
                let a = #[trigger] wide[j];
                &&& a.spawn_pos matches Some((x, y)) ==> y < a.height
                &&& a.exit_pos matches Some((x, y)) ==> y < a.height
            } by {
                assert(read[j].height == wide[j].height);
            }
            assert forall|j: int| 0 <= j < n implies #[trigger] heights(wide)[j] == kept_heights(levels)[j] by {
                assert(parses_to(&levels[ks[j]], &read[j]));
            }
            assert(heights(wide) =~= kept_heights(levels));
        }
        let max_height = max_segment_height(&parsed);
        let min_height: usize = if max_height >= 20 { max_height } else { 20 };
        assert(min_height == min_link_height(levels));
        pad_heights(&mut parsed, min_height);
        let ghost ready = parsed@;
        proof {
            assert forall|j: int| 0 <= j < ks.len() implies ready_segment(&levels[ks[j]], min_link_height(levels), #[trigger] &ready[j]) by {
                assert(parses_to(&levels[ks[j]], &read[j]));
                let rows = content_rows(levels[ks[j]].content@);
                assert(wide[j].tile_grid() =~= Seq::new(rows.len(), |r: int| pad_row(rows[r], max_row_len(rows) as nat)));
            }
            assert(ready_from(levels, ready));
            lemma_ready_fits(levels, ready, config);
        }
        let res = match self.config.layout {
            LayoutStrategy::Linear => link_linear(&mut parsed, &self.config, lerp),
            LayoutStrategy::Vertical => link_vertical(&mut parsed, &self.config, lerp),
            LayoutStrategy::Alternating => link_alternating(&mut parsed, &self.config, lerp),
            LayoutStrategy::Grid => link_grid(&mut parsed, &self.config, lerp),
        };
        assert(layout_result(config, ready, parsed@, lerp, res));
        res
    }
}

/// `kept_levels` lists indices in range.
proof fn lemma_kept_levels(levels: Seq<PooledLevel>, k: int)
    requires
        0 <= k <= levels.len(),
    ensures
        kept_levels(levels, k).len() <= k,
        forall|j: int| 0 <= j < kept_levels(levels, k).len() ==> 0 <= #[trigger] kept_levels(levels, k)[j] < k,
        forall|j: int| 0 <= j < kept_levels(levels, k).len()
            ==> content_rows(levels[#[trigger] kept_levels(levels, k)[j]].content@).len() > 0,
    decreases k,
{
    if k > 0 {
        lemma_kept_levels(levels, k - 1);
    }
}

/// Ready segments read from levels that `link` takes meet every
/// layout's needs, and their sizes are the ready widths and heights.
proof fn lemma_ready_fits(levels: Seq<PooledLevel>, ready: Seq<ParsedSegment>, config: SegmentLinkerConfig)
    requires
        link_input_ok(levels, config),
        ready_from(levels, ready),
        ready.len() >= 1,
    ensures
        layout_input_ok(ready, &config),
        widths(ready) == ready_widths(levels),
        heights(ready) == ready_heights(levels),
        forall|j: int| 0 <= j < ready.len() ==> #[trigger] ready[j].width >= 1,
{
    let ks = kept(levels);
    lemma_kept_levels(levels, levels.len() as int);
    let mh = min_link_height(levels);
    assert forall|j: int| 0 <= j < ready.len() implies {
        &&& seg_fits(#[trigger] ready[j])
        &&& 1 <= ready[j].width
        &&& 1 <= ready[j].height
        &&& ready[j].width == ready_widths(levels)[j]
        &&& ready[j].height == ready_heights(levels)[j]
    } by {
        let level = levels[ks[j]];
        assert(ready_segment(&level, mh, &ready[j]));
        lemma_trimmed_rows_not_blank(level.content@.subrange(tilemap_start(level.content@), level.content@.len() as int));
        let rows = content_rows(level.content@);
        let w = max_row_len(rows);
        lemma_max_row_len(rows);
        assert(ready_widths(levels)[j] <= dim_limit());
        assert(ready_heights(levels)[j] <= dim_limit());
        let g = ready[j].tile_grid();
        let h = rows.len() as int;
        let top = if h < mh { (mh - h) / 2 } else { 0 };
        let bottom = if h < mh { (mh - h) - top } else { 0 };
        assert(g.len() == top + h + bottom);
        assert forall|r: int| 0 <= r < g.len() implies #[trigger] g[r].len() <= dim_limit() by {
            if top <= r < top + h {
                assert(g[r] == pad_row(rows[r - top], w as nat));
                assert(rows[r - top].len() <= w);
            }
        }
        assert(seg_fits(ready[j]));
    }
    assert(widths(ready) =~= ready_widths(levels));
    assert(heights(ready) =~= ready_heights(levels));
}

/// Reads every level with rows as a segment, in order.
fn parse_levels(levels: &Vec<PooledLevel>) -> (parsed: Vec<ParsedSegment>)
    requires
        forall|i: int| 0 <= i < levels@.len() ==> !cuts_inside_char(#[trigger] levels@[i].content@),
    ensures
        parsed@.len() == kept(levels@).len(),
        forall|j: int| 0 <= j < parsed@.len() ==> parses_to(&levels@[kept(levels@)[j]], #[trigger] &parsed@[j]),
        forall|j: int| 0 <= j < parsed@.len() ==> {
            let a = #[trigger] parsed@[j];
            &&& a.spawn_pos matches Some((x, y)) ==> y < a.height
            &&& a.exit_pos matches Some((x, y)) ==> y < a.height
        },
{
    let mut parsed: Vec<ParsedSegment> = Vec::new();
    let n = levels.len();
    let mut i: usize = 0;
    while i < n
        invariant
            n == levels@.len(),
            i <= n,
            forall|k: int| 0 <= k < levels@.len() ==> !cuts_inside_char(#[trigger] levels@[k].content@),
            parsed@.len() == kept_levels(levels@, i as int).len(),
            forall|j: int| 0 <= j < parsed@.len() ==> parses_to(&levels@[kept_levels(levels@, i as int)[j]], #[trigger] &parsed@[j]),
            forall|j: int| 0 <= j < kept_levels(levels@, i as int).len() ==> 0 <= #[trigger] kept_levels(levels@, i as int)[j] < i,
            forall|j: int| 0 <= j < parsed@.len() ==> {
                let a = #[trigger] parsed@[j];
                &&& a.spawn_pos matches Some((x, y)) ==> y < a.height
                &&& a.exit_pos matches Some((x, y)) ==> y < a.height
            },
        decreases n - i,
    {
        let ghost before = kept_levels(levels@, i as int);
        match ParsedSegment::from_pooled_level(&levels[i]) {
            Some(seg) => {
                parsed.push(seg);
                assert(kept_levels(levels@, i + 1) == before.push(i as int));
            },
            None => {
                assert(kept_levels(levels@, i + 1) == before);
            },
        }
        i = i + 1;
    }
    parsed
}

/// Pads every segment's rows with walls to its width.
fn widen_rows(parsed: &mut Vec<ParsedSegment>)
    ensures
        final(parsed)@.len() == old(parsed)@.len(),
        forall|j: int| 0 <= j < old(parsed)@.len() ==> {
            let a = #[trigger] old(parsed)@[j];
            let b = final(parsed)@[j];
            &&& b.tile_grid() == Seq::new(a.tile_grid().len(), |r: int| pad_row(a.tile_grid()[r], a.width as nat))
            &&& b.name == a.name
            &&& b.width == a.width
            &&& b.height == a.height
            &&& b.spawn_pos == a.spawn_pos
            &&& b.exit_pos == a.exit_pos
        },
{
    let n = parsed.len();
    let mut i: usize = 0;
    while i < n
        invariant
            n == parsed@.len(),
            n == old(parsed)@.len(),
            i <= n,
            forall|j: int| 0 <= j < i ==> {
                let a = #[trigger] old(parsed)@[j];
                let b = parsed@[j];
                &&& b.tile_grid() == Seq::new(a.tile_grid().len(), |r: int| pad_row(a.tile_grid()[r], a.width as nat))
                &&& b.name == a.name
                &&& b.width == a.width
                &&& b.height == a.height
                &&& b.spawn_pos == a.spawn_pos
                &&& b.exit_pos == a.exit_pos
            },
            forall|j: int| i <= j < n ==> #[trigger] parsed@[j] == old(parsed)@[j],
        decreases n - i,
    {
        let mut seg = parsed.remove(i);
        let ghost a = seg;
        seg.normalize_width();
        assert(seg.tile_grid() =~= Seq::new(a.tile_grid().len(), |r: int| pad_row(a.tile_grid()[r], a.width as nat)));
        parsed.insert(i, seg);
        i = i + 1;
    }
}

/// Pads every segment to at least `min_height` rows.
fn pad_heights(parsed: &mut Vec<ParsedSegment>, min_height: usize)
    requires
        forall|j: int| 0 <= j < old(parsed)@.len() ==> {
            let a = #[trigger] old(parsed)@[j];
            &&& a.spawn_pos matches Some((x, y)) ==> y < a.height
            &&& a.exit_pos matches Some((x, y)) ==> y < a.height
        },
    ensures
        final(parsed)@.len() == old(parsed)@.len(),
        forall|j: int| 0 <= j < old(parsed)@.len() ==> {
            let a = #[trigger] old(parsed)@[j];
            let b = final(parsed)@[j];
            let top = if a.height < min_height { (min_height - a.height) / 2 } else { 0 };
            let bottom = if a.height < min_height { (min_height - a.height) - top } else { 0 };
            let wall = repeat_char('#', a.width as nat);
            &&& b.tile_grid() == Seq::new(top as nat, |_i: int| wall) + a.tile_grid() + Seq::new(bottom as nat, |_i: int| wall)
            &&& b.height == (if a.height < min_height { min_height } else { a.height })
            &&& b.width == a.width
            &&& b.name == a.name
            &&& b.spawn_pos == shift_marker(a.spawn_pos, top)
            &&& b.exit_pos == shift_marker(a.exit_pos, top)
        },
{
    let n = parsed.len();
    let mut i: usize = 0;
    while i < n
        invariant
            n == parsed@.len(),
            n == old(parsed)@.len(),
            i <= n,
            forall|j: int| 0 <= j < old(parsed)@.len() ==> {
                let a = #[trigger] old(parsed)@[j];
                &&& a.spawn_pos matches Some((x, y)) ==> y < a.height
                &&& a.exit_pos matches Some((x, y)) ==> y < a.height
            },
            forall|j: int| 0 <= j < i ==> {
                let a = #[trigger] old(parsed)@[j];
                let b = parsed@[j];
                let top = if a.height < min_height { (min_height - a.height) / 2 } else { 0 };
                let bottom = if a.height < min_height { (min_height - a.height) - top } else { 0 };
                let wall = repeat_char('#', a.width as nat);
                &&& b.tile_grid() == Seq::new(top as nat, |_i: int| wall) + a.tile_grid() + Seq::new(bottom as nat, |_i: int| wall)
                &&& b.height == (if a.height < min_height { min_height } else { a.height })
                &&& b.width == a.width
                &&& b.name == a.name
                &&& b.spawn_pos == shift_marker(a.spawn_pos, top)
                &&& b.exit_pos == shift_marker(a.exit_pos, top)
            },
            forall|j: int| i <= j < n ==> #[trigger] parsed@[j] == old(parsed)@[j],
        decreases n - i,
    {
        let mut seg = parsed.remove(i);
        let ghost a = seg;
        assert(a == old(parsed)@[i as int]);
        seg.pad_to_min_height(min_height);
        proof {
            if a.height >= min_height {
                assert(seg.tile_grid() =~= Seq::new(0, |_i: int| repeat_char('#', a.width as nat)) + a.tile_grid()
                    + Seq::new(0, |_i: int| repeat_char('#', a.width as nat)));
            }
        }
        parsed.insert(i, seg);
        i = i + 1;
    }
}

} // verus!
