//! Linear layout: segments side by side, joined by horizontal corridors.

use vstd::prelude::*;
use crate::segment_linker::grid::grid;
use crate::segment_linker::assemble::{
    all_prepared, chain_extent, chain_length, chain_offset, dim_limit, grid_text, heights, layout_input_ok,
    lemma_chain_end, lemma_chain_offset_grows, lemma_level_text, lemma_max_of, lemma_prepared_keeps_dims,
    lerp_ok, level_text, max_of, max_segment_height, names_match, segment_names, strip_inner_markers, widths,
};
use crate::segment_linker::segment::{ParsedSegment, SegmentPlacement};
use crate::segment_linker::placement::has_tile;
use crate::segment_linker::stitch::{build_level, lemma_text_has_tile, link_fits, linked_text, links_fit, placements_fit, CorridorLink};
use crate::segment_linker::types::{LayoutStrategy, LinkDirection, LinkedLevel, SegmentLinkerConfig};

verus! {

/// Placements of a linear layout: left to right, each segment centred
/// vertically in the height of the tallest.
pub open spec fn linear_placements(segs: Seq<ParsedSegment>, cw: int) -> Seq<SegmentPlacement> {
    let h = max_of(heights(segs), segs.len() as int);
    Seq::new(segs.len(), |k: int| SegmentPlacement {
        segment_idx: k as usize,
        x: chain_offset(widths(segs), cw, k) as usize,
        y: ((h - segs[k].height) / 2) as usize,
    })
}

/// Corridors of a linear layout: from each segment to the next, to the
/// right, `cw` columns long.
pub open spec fn linear_links(n: int, cw: int) -> Seq<CorridorLink> {
    Seq::new((n - 1) as nat, |k: int| CorridorLink {
        from: k as usize,
        to: (k + 1) as usize,
        dir: LinkDirection::Right,
        len: cw as usize,
    })
}

/// Links segments side by side, left to right, each centred vertically
/// in the height of the tallest, with a horizontal corridor of
/// `corridor_width` columns between neighbours. Only the first segment
/// keeps its spawn and only the last its exit. Each corridor leaves the
/// left segment at the row `find_exit_row` picks and enters the right one
/// at the row `find_entry_row` picks; both walls are punched through, then
/// the corridor is carved along the rows `lerp` gives. Finally a missing
/// spawn or exit is placed.
pub fn link_linear<F: Fn(usize, usize, usize, usize) -> usize>(
    parsed: &mut Vec<ParsedSegment>, config: &SegmentLinkerConfig, lerp: &F,
) -> (res: LinkedLevel)
    requires
        layout_input_ok(old(parsed)@, config),
        chain_length(widths(old(parsed)@), config.corridor_width as int) <= dim_limit(),
        lerp_ok(lerp),
    ensures
        all_prepared(old(parsed)@, final(parsed)@),
        res.width == chain_length(widths(old(parsed)@), config.corridor_width as int),
        res.height == max_of(heights(old(parsed)@), old(parsed)@.len() as int),
        res.success,
        res.layout == LayoutStrategy::Linear,
        names_match(res.segment_names@, old(parsed)@),
        level_text(res.tilemap@, res.width as int, res.height as int),
        res.width >= 2 && old(parsed)@[0].width >= 1 ==> res.tilemap@.contains('P'),
        res.width >= 2 && old(parsed)@[old(parsed)@.len() - 1].width >= 1 ==> res.tilemap@.contains('>'),
        linked_text(res.tilemap@, lerp, final(parsed)@,
            linear_placements(final(parsed)@, config.corridor_width as int),
            linear_links(old(parsed)@.len() as int, config.corridor_width as int),
            res.width as int, res.height as int, config),
{
    let ghost segs0 = parsed@;
    strip_inner_markers(parsed);
    let ghost segs = parsed@;
    proof { lemma_prepared_keeps_dims(segs0, segs, config); }
    let ghost ws = widths(segs);
    let ghost hs = heights(segs);
    let n = parsed.len();
    let cw = config.corridor_width;
    let names = segment_names(parsed);
    let max_h = max_segment_height(parsed);
    let total_width = chain_extent(parsed, true, cw);
    let ghost total = total_width as int;
    proof {
        assert forall|i: int| 0 <= i < n implies 0 <= #[trigger] ws[i] <= dim_limit() by {}
        assert forall|i: int| 0 <= i < n implies 0 <= #[trigger] hs[i] <= dim_limit() by {}
        lemma_max_of(hs, n as int, 0, dim_limit());
        lemma_chain_end(ws, cw as int);
    }

    let mut placements: Vec<SegmentPlacement> = Vec::new();
    let mut x_offset: usize = 0;
    let mut i: usize = 0;
    while i < n
        invariant
            n == segs.len(),
            segs == parsed@,
            ws == widths(segs),
            hs == heights(segs),
            i <= n,
            cw == config.corridor_width,
            cw <= dim_limit(),
            max_h == max_of(hs, n as int),
            total <= dim_limit(),
            chain_offset(ws, cw as int, n as int) == total + cw,
            forall|j: int| 0 <= j < n ==> 0 <= #[trigger] ws[j] <= dim_limit(),
            forall|j: int| 0 <= j < n ==> 0 <= #[trigger] hs[j] <= dim_limit(),
            x_offset == chain_offset(ws, cw as int, i as int),
            placements@.len() == i,
            forall|k: int| 0 <= k < i ==> #[trigger] placements@[k] == linear_placements(segs, cw as int)[k],
        decreases n - i,
    {
        proof {
            lemma_chain_offset_grows(ws, cw as int, i + 1, n as int);
            lemma_max_of(hs, n as int, i as int, dim_limit());
        }
        let y_offset = (max_h - parsed[i].height) / 2;
        placements.push(SegmentPlacement { segment_idx: i, x: x_offset, y: y_offset });
        x_offset = x_offset + parsed[i].width + cw;
        i = i + 1;
    }

    let mut links: Vec<CorridorLink> = Vec::new();
    let mut k: usize = 0;
    while k + 1 < n
        invariant
            n >= 1,
            k <= n - 1,
            links@.len() == k,
            forall|j: int| 0 <= j < k ==> #[trigger] links@[j] == linear_links(n as int, cw as int)[j],
        decreases n - k,
    {
        links.push(CorridorLink { from: k, to: k + 1, dir: LinkDirection::Right, len: cw });
        k = k + 1;
    }

    let ghost pls = linear_placements(segs, cw as int);
    let ghost lks = linear_links(n as int, cw as int);
    assert(placements@ =~= pls);
    assert(links@ =~= lks);
    proof {
        assert forall|j: int| 0 <= j < n implies {
            &&& (#[trigger] pls[j]).segment_idx == j
            &&& pls[j].x + segs[j].width <= total
            &&& pls[j].y + segs[j].height <= max_h
        } by {
            lemma_chain_offset_grows(ws, cw as int, j + 1, n as int);
            lemma_chain_offset_grows(ws, cw as int, j, j + 1);
            lemma_max_of(hs, n as int, j, dim_limit());
            assert(pls[j].x == chain_offset(ws, cw as int, j));
            assert(ws[j] == segs[j].width);
            assert(hs[j] == segs[j].height);
        }
        assert(placements_fit(segs, pls, total, max_h as int));
        assert forall|j: int| 0 <= j < lks.len() implies link_fits(segs, #[trigger] lks[j]) by {}
        assert(links_fit(segs, lks));
    }
    let g = build_level(parsed, &placements, &links, total_width, max_h, config, lerp);
    let tilemap = grid_text(&g);
    proof {
        lemma_level_text(grid(&g), tilemap@, total_width as int, max_h as int);
        let last = segs.len() - 1;
        assert(widths(segs)[0] == segs[0].width && widths(segs0)[0] == segs0[0].width);
        assert(widths(segs)[last] == segs[last].width && widths(segs0)[last] == segs0[last].width);
        assert(heights(segs)[0] == segs[0].height && heights(segs)[last] == segs[last].height);
        if has_tile(grid(&g), 'P') {
            lemma_text_has_tile(grid(&g), 'P');
        }
        if has_tile(grid(&g), '>') {
            lemma_text_has_tile(grid(&g), '>');
        }
    }
    LinkedLevel {
        tilemap,
        width: total_width,
        height: max_h,
        segment_names: names,
        success: true,
        layout: LayoutStrategy::Linear,
    }
}

} // verus!
