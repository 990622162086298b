//! Vertical layout: segments stacked bottom to top, joined by shafts.

use vstd::prelude::*;
use crate::segment_linker::assemble::{
    all_prepared, chain_extent, chain_length, dim_limit, grid_text, heights, layout_input_ok,
    lemma_level_text, lemma_max_of, lemma_prepared_keeps_dims, lemma_sum_grows, lerp_ok, level_text, max_of,
    max_segment_width, names_match, segment_names, strip_inner_markers, sum_of, widths,
};
use crate::segment_linker::grid::{grid, sat_sub};
use crate::segment_linker::segment::{ParsedSegment, SegmentPlacement};
use crate::segment_linker::placement::has_tile;
use crate::segment_linker::stitch::{build_level, lemma_text_has_tile, link_fits, linked_text, links_fit, placements_fit, CorridorLink};
use crate::segment_linker::types::{LayoutStrategy, LinkDirection, LinkedLevel, SegmentLinkerConfig};

verus! {

/// Row just below segment `k` in a vertical layout of height `total`:
/// going up from the bottom, each segment's height and then a corridor's
/// are taken off (never below zero).
pub open spec fn vertical_floor(hs: Seq<int>, total: int, gap: int, k: int) -> int
    decreases k,
{
    if k <= 0 { total } else { sat_sub(sat_sub(vertical_floor(hs, total, gap, k - 1), hs[k - 1]), gap) }
}

/// Placements of a vertical layout: the first segment at the bottom, each
/// next one above the previous with a corridor between, every segment
/// centred horizontally in the width of the widest.
pub open spec fn vertical_placements(segs: Seq<ParsedSegment>, gap: int) -> Seq<SegmentPlacement> {
    let w = max_of(widths(segs), segs.len() as int);
    let total = chain_length(heights(segs), gap);
    Seq::new(segs.len(), |k: int| SegmentPlacement {
        segment_idx: k as usize,
        x: ((w - segs[k].width) / 2) as usize,
        y: sat_sub(vertical_floor(heights(segs), total, gap, k), segs[k].height as int) as usize,
    })
}

/// Corridors of a vertical layout: from each segment up to the next,
/// `gap` rows long.
pub open spec fn vertical_links(n: int, gap: int) -> Seq<CorridorLink> {
    Seq::new((n - 1) as nat, |k: int| CorridorLink {
        from: k as usize,
        to: (k + 1) as usize,
        dir: LinkDirection::Up,
        len: gap as usize,
    })
}

/// The floor row never rises above the layout's height or below zero.
proof fn lemma_vertical_floor(hs: Seq<int>, total: int, gap: int, k: int)
    requires
        0 <= total,
        0 <= k <= hs.len(),
        0 <= gap,
        forall|i: int| 0 <= i < hs.len() ==> 0 <= #[trigger] hs[i],
    ensures
        0 <= vertical_floor(hs, total, gap, k) <= total,
    decreases k,
{
    if k > 0 {
        lemma_vertical_floor(hs, total, gap, k - 1);
    }
}

/// Stacks segments bottom to top, each centred horizontally in the width
/// of the widest, with a vertical shaft of `corridor_height` rows between
/// neighbours. Only the first segment keeps its spawn and only the last
/// its exit. Each shaft leaves the lower segment at the column
/// `find_vertical_exit_col` picks and enters the upper one at the column
/// `find_vertical_entry_col` picks; the lower segment's top and the upper
/// segment's bottom are punched through, then the shaft is carved along
/// the columns `lerp` gives. Finally a missing spawn or exit is placed.
pub fn link_vertical<F: Fn(usize, usize, usize, usize) -> usize>(
    parsed: &mut Vec<ParsedSegment>, config: &SegmentLinkerConfig, lerp: &F,
) -> (res: LinkedLevel)
    requires
        layout_input_ok(old(parsed)@, config),
        chain_length(heights(old(parsed)@), config.corridor_height as int) <= dim_limit(),
        lerp_ok(lerp),
    ensures
        all_prepared(old(parsed)@, final(parsed)@),
        res.width == max_of(widths(old(parsed)@), old(parsed)@.len() as int),
        res.height == chain_length(heights(old(parsed)@), config.corridor_height as int),
        res.success,
        res.layout == LayoutStrategy::Vertical,
        names_match(res.segment_names@, old(parsed)@),
        level_text(res.tilemap@, res.width as int, res.height as int),
        res.width >= 2 && old(parsed)@[0].width >= 1 ==> res.tilemap@.contains('P'),
        res.width >= 2 && old(parsed)@[old(parsed)@.len() - 1].width >= 1 ==> res.tilemap@.contains('>'),
        linked_text(res.tilemap@, lerp, final(parsed)@,
            vertical_placements(final(parsed)@, config.corridor_height as int),
            vertical_links(old(parsed)@.len() as int, config.corridor_height as int),
            res.width as int, res.height as int, config),
{
    let ghost segs0 = parsed@;
    strip_inner_markers(parsed);
    let ghost segs = parsed@;
    proof { lemma_prepared_keeps_dims(segs0, segs, config); }
    let ghost ws = widths(segs);
    let ghost hs = heights(segs);
    let n = parsed.len();
    let gap = config.corridor_height;
    let names = segment_names(parsed);
    let max_w = max_segment_width(parsed);
    let total_height = chain_extent(parsed, false, gap);
    let ghost total = total_height as int;
    proof {
        assert forall|i: int| 0 <= i < n implies 0 <= #[trigger] ws[i] <= dim_limit() by {}
        assert forall|i: int| 0 <= i < n implies 0 <= #[trigger] hs[i] <= dim_limit() by {}
        lemma_max_of(ws, n as int, 0, dim_limit());
        lemma_sum_grows(hs, n as int, n as int);
        assert(total == sum_of(hs, n as int) + (n - 1) * gap);
        assert((n - 1) * gap >= 0) by (nonlinear_arith)
            requires n >= 1, gap >= 0;
    }

    let mut placements: Vec<SegmentPlacement> = Vec::new();
    let mut y_offset: usize = total_height;
    let mut i: usize = 0;
    while i < n
        invariant
            n == segs.len(),
            segs == parsed@,
            ws == widths(segs),
            hs == heights(segs),
            i <= n,
            gap == config.corridor_height,
            max_w == max_of(ws, n as int),
            total == chain_length(hs, gap as int),
            0 <= total <= dim_limit(),
            forall|j: int| 0 <= j < n ==> 0 <= #[trigger] ws[j] <= dim_limit(),
            forall|j: int| 0 <= j < n ==> 0 <= #[trigger] hs[j] <= dim_limit(),
            y_offset == vertical_floor(hs, total, gap as int, i as int),
            placements@.len() == i,
            forall|k: int| 0 <= k < i ==> #[trigger] placements@[k] == vertical_placements(segs, gap as int)[k],
        decreases n - i,
    {
        proof {
            lemma_max_of(ws, n as int, i as int, dim_limit());
            lemma_vertical_floor(hs, total, gap as int, i as int);
        }
        y_offset = y_offset.saturating_sub(parsed[i].height);
        let x_offset = (max_w - parsed[i].width) / 2;
        placements.push(SegmentPlacement { segment_idx: i, x: x_offset, y: y_offset });
        y_offset = y_offset.saturating_sub(gap);
        i = i + 1;
    }

    let mut links: Vec<CorridorLink> = Vec::new();
    let mut k: usize = 0;
    while k + 1 < n
        invariant
            n >= 1,
            k <= n - 1,
            links@.len() == k,
            forall|j: int| 0 <= j < k ==> #[trigger] links@[j] == vertical_links(n as int, gap as int)[j],
        decreases n - k,
    {
        links.push(CorridorLink { from: k, to: k + 1, dir: LinkDirection::Up, len: gap });
        k = k + 1;
    }

    let ghost pls = vertical_placements(segs, gap as int);
    let ghost lks = vertical_links(n as int, gap as int);
    assert(placements@ =~= pls);
    assert(links@ =~= lks);
    proof {
        assert forall|j: int| 0 <= j < n implies {
            &&& (#[trigger] pls[j]).segment_idx == j
            &&& pls[j].x + segs[j].width <= max_w
            &&& pls[j].y + segs[j].height <= total
        } by {
            lemma_max_of(ws, n as int, j, dim_limit());
            lemma_vertical_floor(hs, total, gap as int, j);
            lemma_sum_grows(hs, j + 1, n as int);
            assert(sum_of(hs, j + 1) == sum_of(hs, j) + hs[j]);
            lemma_sum_grows(hs, j, j + 1);
            assert(ws[j] == segs[j].width);
            assert(hs[j] == segs[j].height);
        }
        assert(placements_fit(segs, pls, max_w as int, total));
        assert forall|j: int| 0 <= j < lks.len() implies link_fits(segs, #[trigger] lks[j]) by {}
        assert(links_fit(segs, lks));
    }
    let g = build_level(parsed, &placements, &links, max_w, total_height, config, lerp);
    let tilemap = grid_text(&g);
    proof {
        lemma_level_text(grid(&g), tilemap@, max_w as int, total_height as int);
        let last = segs.len() - 1;
        assert(widths(segs)[0] == segs[0].width && widths(segs0)[0] == segs0[0].width);
        assert(widths(segs)[last] == segs[last].width && widths(segs0)[last] == segs0[last].width);
        assert(heights(segs)[0] == segs[0].height && heights(segs)[last] == segs[last].height);
        if has_tile(grid(&g), 'P') {
            lemma_text_has_tile(grid(&g), 'P');
        }
        if has_tile(grid(&g), '>') {
            lemma_text_has_tile(grid(&g), '>');
        }
    }
    LinkedLevel {
        tilemap,
        width: max_w,
        height: total_height,
        segment_names: names,
        success: true,
        layout: LayoutStrategy::Vertical,
    }
}

} // verus!
