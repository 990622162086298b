//! Alternating layout: a zig-zag of segments, right, up, right, up, ...

use vstd::prelude::*;
use crate::segment_linker::assemble::{
    all_prepared, dim_limit, grid_text, heights, layout_input_ok, lemma_level_text, lemma_prepared_keeps_dims,
    lerp_ok, level_text, names_match, segment_names, strip_inner_markers, widths,
};
use crate::segment_linker::grid::{grid, sat_sub};
use crate::segment_linker::segment::{ParsedSegment, SegmentPlacement};
use crate::segment_linker::placement::has_tile;
use crate::segment_linker::stitch::{build_level, lemma_text_has_tile, link_fits, linked_text, links_fit, placements_fit, CorridorLink};
use crate::segment_linker::types::{LayoutStrategy, LinkDirection, LinkedLevel, SegmentLinkerConfig};

verus! {

/// Position of segment `k` in the zig-zag, counted from the bottom-left:
/// after an even-numbered segment the next one moves right by its width
/// and a corridor, after an odd-numbered one it moves up by its height
/// and a corridor.
pub open spec fn zigzag_pos(ws: Seq<int>, hs: Seq<int>, cw: int, ch: int, k: int) -> (int, int)
    decreases k,
{
    if k <= 0 {
        (0, 0)
    } else {
        let prev = zigzag_pos(ws, hs, cw, ch, k - 1);
        if (k - 1) % 2 == 0 {
            (prev.0 + ws[k - 1] + cw, prev.1)
        } else {
            (prev.0, prev.1 + hs[k - 1] + ch)
        }
    }
}

/// Width of the zig-zag over its first `k` segments: the largest of the
/// position after each segment plus that segment's width.
pub open spec fn zigzag_width(ws: Seq<int>, hs: Seq<int>, cw: int, ch: int, k: int) -> int
    decreases k,
{
    if k <= 0 {
        0
    } else {
        let m = zigzag_width(ws, hs, cw, ch, k - 1);
        let e = zigzag_pos(ws, hs, cw, ch, k).0 + ws[k - 1];
        if e > m { e } else { m }
    }
}

/// Height of the zig-zag over its first `k` segments: the largest of the
/// position after each segment plus that segment's height.
pub open spec fn zigzag_height(ws: Seq<int>, hs: Seq<int>, cw: int, ch: int, k: int) -> int
    decreases k,
{
    if k <= 0 {
        0
    } else {
        let m = zigzag_height(ws, hs, cw, ch, k - 1);
        let e = zigzag_pos(ws, hs, cw, ch, k).1 + hs[k - 1];
        if e > m { e } else { m }
    }
}

/// Placements of the zig-zag: positions as `zigzag_pos`, with rows
/// counted from the top of a level of height `zigzag_height`.
pub open spec fn zigzag_placements(segs: Seq<ParsedSegment>, cw: int, ch: int) -> Seq<SegmentPlacement> {
    let ws = widths(segs);
    let hs = heights(segs);
    let h = zigzag_height(ws, hs, cw, ch, segs.len() as int);
    Seq::new(segs.len(), |k: int| SegmentPlacement {
        segment_idx: k as usize,
        x: zigzag_pos(ws, hs, cw, ch, k).0 as usize,
        y: sat_sub(h, zigzag_pos(ws, hs, cw, ch, k).1 + hs[k]) as usize,
    })
}

/// Corridors of the zig-zag: from an even-numbered segment right to the
/// next (`cw` columns), from an odd-numbered one up to the next (`ch`
/// rows).
pub open spec fn zigzag_links(n: int, cw: int, ch: int) -> Seq<CorridorLink> {
    Seq::new((n - 1) as nat, |k: int| CorridorLink {
        from: k as usize,
        to: (k + 1) as usize,
        dir: if k % 2 == 0 { LinkDirection::Right } else { LinkDirection::Up },
        len: if k % 2 == 0 { cw as usize } else { ch as usize },
    })
}

/// Positions only grow, and each segment's far edges lie within the
/// zig-zag's width and height.
proof fn lemma_zigzag(ws: Seq<int>, hs: Seq<int>, cw: int, ch: int, j: int, k: int)
    requires
        0 <= j <= k <= ws.len(),
        ws.len() == hs.len(),
        cw >= 0,
        ch >= 0,
        forall|i: int| 0 <= i < ws.len() ==> 0 <= #[trigger] ws[i] && 0 <= hs[i],
    ensures
        0 <= zigzag_pos(ws, hs, cw, ch, j).0 <= zigzag_pos(ws, hs, cw, ch, k).0,
        0 <= zigzag_pos(ws, hs, cw, ch, j).1 <= zigzag_pos(ws, hs, cw, ch, k).1,
        0 <= zigzag_width(ws, hs, cw, ch, j) <= zigzag_width(ws, hs, cw, ch, k),
        0 <= zigzag_height(ws, hs, cw, ch, j) <= zigzag_height(ws, hs, cw, ch, k),
        j < k ==> zigzag_pos(ws, hs, cw, ch, j + 1).0 + ws[j] <= zigzag_width(ws, hs, cw, ch, k),
        j < k ==> zigzag_pos(ws, hs, cw, ch, j + 1).1 + hs[j] <= zigzag_height(ws, hs, cw, ch, k),
    decreases k - j + k,
{
    if j < k {
        lemma_zigzag(ws, hs, cw, ch, j, k - 1);
        if j + 1 < k {
            lemma_zigzag(ws, hs, cw, ch, j + 1, k - 1);
        }
    } else if j > 0 {
        lemma_zigzag(ws, hs, cw, ch, j - 1, j - 1);
    }
}

/// Links segments in a zig-zag: segment 0 at the bottom left, the next to
/// its right, the one after above that, and so on, with corridors of
/// `corridor_width` columns to the right and `corridor_height` rows up.
/// The level is as wide and as tall as the largest position after a
/// segment plus that segment's size. Only the first segment keeps its
/// spawn and only the last its exit. Horizontal corridors are made as in
/// the linear layout, vertical ones as in the vertical layout; finally a
/// missing spawn or exit is placed.
pub fn link_alternating<F: Fn(usize, usize, usize, usize) -> usize>(
    parsed: &mut Vec<ParsedSegment>, config: &SegmentLinkerConfig, lerp: &F,
) -> (res: LinkedLevel)
    requires
        layout_input_ok(old(parsed)@, config),
        zigzag_width(widths(old(parsed)@), heights(old(parsed)@), config.corridor_width as int,
            config.corridor_height as int, old(parsed)@.len() as int) <= dim_limit(),
        zigzag_height(widths(old(parsed)@), heights(old(parsed)@), config.corridor_width as int,
            config.corridor_height as int, old(parsed)@.len() as int) <= dim_limit(),
        lerp_ok(lerp),
    ensures
        all_prepared(old(parsed)@, final(parsed)@),
        res.width == zigzag_width(widths(old(parsed)@), heights(old(parsed)@), config.corridor_width as int,
            config.corridor_height as int, old(parsed)@.len() as int),
        res.height == zigzag_height(widths(old(parsed)@), heights(old(parsed)@), config.corridor_width as int,
            config.corridor_height as int, old(parsed)@.len() as int),
        res.success,
        res.layout == LayoutStrategy::Alternating,
        names_match(res.segment_names@, old(parsed)@),
        level_text(res.tilemap@, res.width as int, res.height as int),
        res.width >= 2 && old(parsed)@[0].width >= 1 ==> res.tilemap@.contains('P'),
        res.width >= 2 && old(parsed)@[old(parsed)@.len() - 1].width >= 1 ==> res.tilemap@.contains('>'),
        linked_text(res.tilemap@, lerp, final(parsed)@,
            zigzag_placements(final(parsed)@, config.corridor_width as int, config.corridor_height as int),
            zigzag_links(old(parsed)@.len() as int, config.corridor_width as int, config.corridor_height as int),
            res.width as int, res.height as int, config),
{
    let ghost segs0 = parsed@;
    strip_inner_markers(parsed);
    let ghost segs = parsed@;
    proof { lemma_prepared_keeps_dims(segs0, segs, config); }
    let ghost ws = widths(segs);
    let ghost hs = heights(segs);
    let n = parsed.len();
    let cw = config.corridor_width;
    let ch = config.corridor_height;
    let names = segment_names(parsed);
    let ghost wn = zigzag_width(ws, hs, cw as int, ch as int, n as int);
    let ghost hn = zigzag_height(ws, hs, cw as int, ch as int, n as int);
    proof {
        assert forall|i: int| 0 <= i < n implies 0 <= #[trigger] ws[i] <= dim_limit() && 0 <= hs[i] <= dim_limit() by {}
    }

    let mut total_width: usize = 0;
    let mut total_height: usize = 0;
    let mut positions: Vec<(usize, usize)> = Vec::new();
    let mut current_x: usize = 0;
    let mut current_y: usize = 0;
    let mut i: usize = 0;
    while i < n
        invariant
            n == segs.len(),
            segs == parsed@,
            ws == widths(segs),
            hs == heights(segs),
            i <= n,
            cw == config.corridor_width,
            ch == config.corridor_height,
            cw <= dim_limit(),
            ch <= dim_limit(),
            wn == zigzag_width(ws, hs, cw as int, ch as int, n as int),
            hn == zigzag_height(ws, hs, cw as int, ch as int, n as int),
            wn <= dim_limit(),
            hn <= dim_limit(),
            forall|j: int| 0 <= j < n ==> 0 <= #[trigger] ws[j] <= dim_limit() && 0 <= hs[j] <= dim_limit(),
            (current_x as int, current_y as int) == zigzag_pos(ws, hs, cw as int, ch as int, i as int),
            total_width == zigzag_width(ws, hs, cw as int, ch as int, i as int),
            total_height == zigzag_height(ws, hs, cw as int, ch as int, i as int),
            positions@.len() == i,
            forall|k: int| 0 <= k < i ==> (#[trigger] positions@[k].0 as int, positions@[k].1 as int)
                == zigzag_pos(ws, hs, cw as int, ch as int, k),
        decreases n - i,
    {
        proof {
            lemma_zigzag(ws, hs, cw as int, ch as int, i as int, n as int);
            lemma_zigzag(ws, hs, cw as int, ch as int, i + 1, n as int);
        }
        positions.push((current_x, current_y));
        if i % 2 == 0 {
            current_x = current_x + parsed[i].width + cw;
        } else {
            current_y = current_y + parsed[i].height + ch;
        }
        if current_x + parsed[i].width > total_width {
            total_width = current_x + parsed[i].width;
        }
        if current_y + parsed[i].height > total_height {
            total_height = current_y + parsed[i].height;
        }
        i = i + 1;
    }

    let ghost pls = zigzag_placements(segs, cw as int, ch as int);
    let mut placements: Vec<SegmentPlacement> = Vec::new();
    let mut i: usize = 0;
    while i < n
        invariant
            n == segs.len(),
            segs == parsed@,
            ws == widths(segs),
            hs == heights(segs),
            i <= n,
            cw == config.corridor_width,
            ch == config.corridor_height,
            cw <= dim_limit(),
            ch <= dim_limit(),
            pls == zigzag_placements(segs, cw as int, ch as int),
            total_height == zigzag_height(ws, hs, cw as int, ch as int, n as int),
            total_width == zigzag_width(ws, hs, cw as int, ch as int, n as int),
            total_width <= dim_limit(),
            total_height <= dim_limit(),
            forall|j: int| 0 <= j < n ==> 0 <= #[trigger] ws[j] <= dim_limit() && 0 <= hs[j] <= dim_limit(),
            positions@.len() == n,
            forall|k: int| 0 <= k < n ==> (#[trigger] positions@[k].0 as int, positions@[k].1 as int)
                == zigzag_pos(ws, hs, cw as int, ch as int, k),
            placements@.len() == i,
            forall|k: int| 0 <= k < i ==> #[trigger] placements@[k] == pls[k],
        decreases n - i,
    {
        proof {
            lemma_zigzag(ws, hs, cw as int, ch as int, i as int, n as int);
            lemma_zigzag(ws, hs, cw as int, ch as int, i + 1, n as int);
        }
        let (x, y) = positions[i];
        assert((x as int, y as int) == zigzag_pos(ws, hs, cw as int, ch as int, i as int));
        let inv_y = total_height.saturating_sub(y + parsed[i].height);
        placements.push(SegmentPlacement { segment_idx: i, x, y: inv_y });
        i = i + 1;
    }

    let mut links: Vec<CorridorLink> = Vec::new();
    let mut k: usize = 0;
    while k + 1 < n
        invariant
            n >= 1,
            k <= n - 1,
            links@.len() == k,
            forall|j: int| 0 <= j < k ==> #[trigger] links@[j] == zigzag_links(n as int, cw as int, ch as int)[j],
        decreases n - k,
    {
        if k % 2 == 0 {
            links.push(CorridorLink { from: k, to: k + 1, dir: LinkDirection::Right, len: cw });
        } else {
            links.push(CorridorLink { from: k, to: k + 1, dir: LinkDirection::Up, len: ch });
        }
        k = k + 1;
    }

    let ghost lks = zigzag_links(n as int, cw as int, ch as int);
    assert(placements@ =~= pls);
    assert(links@ =~= lks);
    proof {
        assert forall|j: int| 0 <= j < n implies {
            &&& (#[trigger] pls[j]).segment_idx == j
            &&& pls[j].x + segs[j].width <= total_width
            &&& pls[j].y + segs[j].height <= total_height
        } by {
            lemma_zigzag(ws, hs, cw as int, ch as int, j, j + 1);
            lemma_zigzag(ws, hs, cw as int, ch as int, j, n as int);
            lemma_zigzag(ws, hs, cw as int, ch as int, j + 1, n as int);
            assert(ws[j] == segs[j].width);
            assert(hs[j] == segs[j].height);
        }
        assert(placements_fit(segs, pls, total_width as int, total_height as int));
        assert forall|j: int| 0 <= j < lks.len() implies link_fits(segs, #[trigger] lks[j]) by {}
        assert(links_fit(segs, lks));
    }
    let g = build_level(parsed, &placements, &links, total_width, total_height, config, lerp);
    let tilemap = grid_text(&g);
    proof {
        lemma_level_text(grid(&g), tilemap@, total_width as int, total_height as int);
        let last = segs.len() - 1;
        assert(widths(segs)[0] == segs[0].width && widths(segs0)[0] == segs0[0].width);
        assert(widths(segs)[last] == segs[last].width && widths(segs0)[last] == segs0[last].width);
        assert(heights(segs)[0] == segs[0].height && heights(segs)[last] == segs[last].height);
        if has_tile(grid(&g), 'P') {
            lemma_text_has_tile(grid(&g), 'P');
        }
        if has_tile(grid(&g), '>') {
            lemma_text_has_tile(grid(&g), '>');
        }
    }
    LinkedLevel {
        tilemap,
        width: total_width,
        height: total_height,
        segment_names: names,
        success: true,
        layout: LayoutStrategy::Alternating,
    }
}

} // verus!
