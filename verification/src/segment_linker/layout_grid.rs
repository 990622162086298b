//! Grid layout: segments in rows of equal cells, joined to their right
//! and lower neighbours.

use vstd::prelude::*;
use crate::segment_linker::assemble::{
    all_prepared, dim_limit, grid_text, heights, layout_input_ok, lemma_level_text, lemma_max_of,
    lemma_prepared_keeps_dims, lerp_ok, level_text, max_of, max_segment_height, max_segment_width,
    names_match, segment_names, strip_inner_markers, widths,
};
use crate::segment_linker::grid::{grid, sat_sub};
use crate::segment_linker::segment::{ParsedSegment, SegmentPlacement};
use crate::segment_linker::placement::has_tile;
use crate::segment_linker::stitch::{build_level, lemma_text_has_tile, link_fits, linked_text, links_fit, placements_fit, CorridorLink};
use crate::segment_linker::types::{LayoutStrategy, LinkDirection, LinkedLevel, SegmentLinkerConfig};

verus! {

/// The first `c` from `start` upward whose square reaches `n`.
pub open spec fn sqrt_search(n: int, start: int) -> int
    decreases n - start when start >= 0
{
    if start * start >= n {
        start
    } else {
        proof {
            assert(start <= start * start) by (nonlinear_arith)
                requires start >= 0;
        }
        sqrt_search(n, start + 1)
    }
}

/// Columns of the grid: the square root of the segment count rounded up,
/// and at least two.
pub open spec fn grid_cols(n: int) -> int {
    let c = sqrt_search(n, 0);
    if c >= 2 { c } else { 2 }
}

/// Rows of the grid: enough to hold all segments.
pub open spec fn grid_rows(n: int) -> int {
    (n + grid_cols(n) - 1) / grid_cols(n)
}

/// Width of a grid cell: the widest segment plus a corridor.
pub open spec fn cell_width(segs: Seq<ParsedSegment>, cw: int) -> int {
    max_of(widths(segs), segs.len() as int) + cw
}

/// Height of a grid cell: the tallest segment plus a corridor.
pub open spec fn cell_height(segs: Seq<ParsedSegment>, ch: int) -> int {
    max_of(heights(segs), segs.len() as int) + ch
}

/// Placements of the grid: segment `k` in column `k % cols`, row
/// `k / cols`, centred in its cell.
pub open spec fn grid_placements(segs: Seq<ParsedSegment>, cw: int, ch: int) -> Seq<SegmentPlacement> {
    let cols = grid_cols(segs.len() as int);
    let w = cell_width(segs, cw);
    let h = cell_height(segs, ch);
    Seq::new(segs.len(), |k: int| SegmentPlacement {
        segment_idx: k as usize,
        x: ((k % cols) * w + (w - segs[k].width) / 2) as usize,
        y: ((k / cols) * h + (h - segs[k].height) / 2) as usize,
    })
}

/// Corridors of the grid from the first `k` segments, in order: from each
/// segment to its right neighbour in the same row, then down to the
/// segment below it; each corridor spans the gap between the two.
pub open spec fn grid_links_upto(segs: Seq<ParsedSegment>, pls: Seq<SegmentPlacement>, cols: int, rows: int, k: int) -> Seq<CorridorLink>
    decreases k,
{
    if k <= 0 {
        Seq::empty()
    } else {
        let i = k - 1;
        let n = segs.len() as int;
        let prev = grid_links_upto(segs, pls, cols, rows, k - 1);
        let right = if i % cols + 1 < cols && i + 1 < n {
            seq![CorridorLink {
                from: i as usize,
                to: (i + 1) as usize,
                dir: LinkDirection::Right,
                len: sat_sub(pls[i + 1].x as int, pls[i].x + segs[i].width) as usize,
            }]
        } else {
            Seq::empty()
        };
        let down = if i / cols + 1 < rows && i + cols < n {
            seq![CorridorLink {
                from: i as usize,
                to: (i + cols) as usize,
                dir: LinkDirection::Down,
                len: sat_sub(pls[i + cols].y as int, pls[i].y + segs[i].height) as usize,
            }]
        } else {
            Seq::empty()
        };
        prev + right + down
    }
}

/// Corridors of the grid.
pub open spec fn grid_links(segs: Seq<ParsedSegment>, cw: int, ch: int) -> Seq<CorridorLink> {
    let n = segs.len() as int;
    grid_links_upto(segs, grid_placements(segs, cw, ch), grid_cols(n), grid_rows(n), n)
}

/// Cell arithmetic: segment `k` lies in a column before `cols` and a row
/// before `rows`, and a cell's far edge stays within the grid.
proof fn lemma_cell(k: int, n: int, cols: int, cell: int, size: int)
    requires
        0 <= k < n,
        cols >= 1,
        0 <= size <= cell,
    ensures
        0 <= k % cols < cols,
        0 <= k / cols < (n + cols - 1) / cols,
        0 <= (k % cols) * cell,
        (k % cols) * cell + (cell - size) / 2 + size <= cell * cols,
        0 <= (k / cols) * cell,
        (k / cols) * cell + (cell - size) / 2 + size <= cell * ((n + cols - 1) / cols),
{
    assert(0 <= k % cols < cols) by (nonlinear_arith)
        requires cols >= 1, k >= 0;
    assert(0 <= k / cols) by (nonlinear_arith)
        requires cols >= 1, k >= 0;
    assert(k / cols < (n + cols - 1) / cols) by (nonlinear_arith)
        requires cols >= 1, 0 <= k < n;
    let c = k % cols;
    let r = k / cols;
    let rows = (n + cols - 1) / cols;
    assert(0 <= c * cell) by (nonlinear_arith)
        requires c >= 0, cell >= 0;
    assert(0 <= r * cell) by (nonlinear_arith)
        requires r >= 0, cell >= 0;
    assert(c * cell + cell <= cell * cols) by (nonlinear_arith)
        requires c + 1 <= cols, cell >= 0;
    assert(r * cell + cell <= cell * rows) by (nonlinear_arith)
        requires r + 1 <= rows, cell >= 0;
}

/// Links segments in a grid of `cols` columns (the square root of their
/// number rounded up, at least two) and as many rows as needed, each
/// centred in a cell as wide as the widest segment plus `corridor_width`
/// and as tall as the tallest plus `corridor_height`. Only the first
/// segment keeps its spawn and only the last its exit. Each segment is
/// joined to its right neighbour in the same row by a horizontal corridor
/// across the gap between them, and to the segment below it by a vertical
/// shaft across the gap; finally a missing spawn or exit is placed.
/// It takes fewer than 2^24 segments: up to there the square root rounded
/// up is the same whether computed exactly, as here, or in `f32`.
pub fn link_grid<F: Fn(usize, usize, usize, usize) -> usize>(
    parsed: &mut Vec<ParsedSegment>, config: &SegmentLinkerConfig, lerp: &F,
) -> (res: LinkedLevel)
    requires
        layout_input_ok(old(parsed)@, config),
        old(parsed)@.len() < 0x100_0000,
        cell_width(old(parsed)@, config.corridor_width as int) * grid_cols(old(parsed)@.len() as int) <= dim_limit(),
        cell_height(old(parsed)@, config.corridor_height as int) * grid_rows(old(parsed)@.len() as int) <= dim_limit(),
        lerp_ok(lerp),
    ensures
        all_prepared(old(parsed)@, final(parsed)@),
        res.width == cell_width(old(parsed)@, config.corridor_width as int) * grid_cols(old(parsed)@.len() as int),
        res.height == cell_height(old(parsed)@, config.corridor_height as int) * grid_rows(old(parsed)@.len() as int),
        res.success,
        res.layout == LayoutStrategy::Grid,
        names_match(res.segment_names@, old(parsed)@),
        level_text(res.tilemap@, res.width as int, res.height as int),
        res.width >= 2 && old(parsed)@[0].width >= 1 ==> res.tilemap@.contains('P'),
        res.width >= 2 && old(parsed)@[old(parsed)@.len() - 1].width >= 1 ==> res.tilemap@.contains('>'),
        linked_text(res.tilemap@, lerp, final(parsed)@,
            grid_placements(final(parsed)@, config.corridor_width as int, config.corridor_height as int),
            grid_links(final(parsed)@, config.corridor_width as int, config.corridor_height as int),
            res.width as int, res.height as int, config),
{
    let ghost segs0 = parsed@;
    strip_inner_markers(parsed);
    let ghost segs = parsed@;
    proof { lemma_prepared_keeps_dims(segs0, segs, config); }
    let ghost ws = widths(segs);
    let ghost hs = heights(segs);
    let n = parsed.len();
    let names = segment_names(parsed);

    let mut c: usize = 0;
    while c * c < n
        invariant
            n >= 1,
            n < 0x100_0000,
            c <= n,
            c * c <= 3 * n,
            sqrt_search(n as int, c as int) == sqrt_search(n as int, 0),
        decreases n - c,
    {
        assert(c + 1 <= n) by (nonlinear_arith)
            requires c * c < n, c >= 0;
        assert((c + 1) * (c + 1) <= 3 * n) by (nonlinear_arith)
            requires c * c < n, c + 1 <= n;
        c = c + 1;
    }
    let cols: usize = if c >= 2 { c } else { 2 };
    assert(cols == grid_cols(n as int));
    let rows = (n + cols - 1) / cols;
    let ghost nn = n as int;
    assert(rows == grid_rows(nn));

    let max_w = max_segment_width(parsed);
    let max_h = max_segment_height(parsed);
    proof {
        assert forall|i: int| 0 <= i < n implies 0 <= #[trigger] ws[i] <= dim_limit() by {}
        assert forall|i: int| 0 <= i < n implies 0 <= #[trigger] hs[i] <= dim_limit() by {}
        lemma_max_of(ws, n as int, 0, dim_limit());
        lemma_max_of(hs, n as int, 0, dim_limit());
    }
    let cell_w = max_w + config.corridor_width;
    let cell_h = max_h + config.corridor_height;
    assert(cell_w == cell_width(segs, config.corridor_width as int));
    assert(cell_h == cell_height(segs, config.corridor_height as int));
    let total_width = cell_w * cols;
    let total_height = cell_h * rows;

    let ghost pls = grid_placements(segs, config.corridor_width as int, config.corridor_height as int);
    let mut placements: Vec<SegmentPlacement> = Vec::new();
    let mut i: usize = 0;
    while i < n
        invariant
            n == segs.len(),
            segs == parsed@,
            ws == widths(segs),
            hs == heights(segs),
            i <= n,
            cols == grid_cols(n as int),
            cols >= 2,
            rows == grid_rows(n as int),
            cell_w == cell_width(segs, config.corridor_width as int),
            cell_h == cell_height(segs, config.corridor_height as int),
            max_w == max_of(ws, n as int),
            max_h == max_of(hs, n as int),
            total_width == cell_w * cols,
            total_height == cell_h * rows,
            total_width <= dim_limit(),
            total_height <= dim_limit(),
            forall|j: int| 0 <= j < n ==> 0 <= #[trigger] ws[j] <= dim_limit(),
            forall|j: int| 0 <= j < n ==> 0 <= #[trigger] hs[j] <= dim_limit(),
            pls == grid_placements(segs, config.corridor_width as int, config.corridor_height as int),
            placements@.len() == i,
            forall|k: int| 0 <= k < i ==> #[trigger] placements@[k] == pls[k],
        decreases n - i,
    {
        proof {
            lemma_max_of(ws, n as int, i as int, dim_limit());
            lemma_max_of(hs, n as int, i as int, dim_limit());
            lemma_cell(i as int, n as int, cols as int, cell_w as int, ws[i as int]);
            lemma_cell(i as int, n as int, cols as int, cell_h as int, hs[i as int]);
        }
        let col = i % cols;
        let row = i / cols;
        let x = col * cell_w + (cell_w - parsed[i].width) / 2;
        let y = row * cell_h + (cell_h - parsed[i].height) / 2;
        placements.push(SegmentPlacement { segment_idx: i, x, y });
        i = i + 1;
    }
    assert(placements@ =~= pls);
    proof {
        assert forall|j: int| 0 <= j < n implies {
            &&& (#[trigger] pls[j]).segment_idx == j
            &&& pls[j].x + segs[j].width <= total_width
            &&& pls[j].y + segs[j].height <= total_height
        } by {
            lemma_max_of(ws, n as int, j, dim_limit());
            lemma_max_of(hs, n as int, j, dim_limit());
            lemma_cell(j, n as int, cols as int, cell_w as int, ws[j]);
            lemma_cell(j, n as int, cols as int, cell_h as int, hs[j]);
            assert(ws[j] == segs[j].width);
            assert(hs[j] == segs[j].height);
        }
        assert(placements_fit(segs, pls, total_width as int, total_height as int));
    }

    let mut links: Vec<CorridorLink> = Vec::new();
    let mut i: usize = 0;
    while i < n
        invariant
            n == segs.len(),
            segs == parsed@,
            i <= n,
            cols == grid_cols(n as int),
            cols >= 2,
            cols <= n + 2,
            n < 0x100_0000,
            rows == grid_rows(n as int),
            layout_input_ok(segs, config),
            placements_fit(segs, pls, total_width as int, total_height as int),
            placements@ == pls,
            links@ == grid_links_upto(segs, pls, cols as int, rows as int, i as int),
            links_fit(segs, links@),
        decreases n - i,
    {
        let col = i % cols;
        let row = i / cols;
        let ghost before = links@;
        if col + 1 < cols && i + 1 < n {
            let p = &placements[i];
            let q = &placements[i + 1];
            let len = q.x.saturating_sub(p.x + parsed[i].width);
            let l = CorridorLink { from: i, to: i + 1, dir: LinkDirection::Right, len };
            assert(link_fits(segs, l));
            links.push(l);
        }
        let ghost mid = links@;
        if row + 1 < rows && i + cols < n {
            let p = &placements[i];
            let q = &placements[i + cols];
            let len = q.y.saturating_sub(p.y + parsed[i].height);
            let l = CorridorLink { from: i, to: i + cols, dir: LinkDirection::Down, len };
            assert(link_fits(segs, l));
            links.push(l);
        }
        proof {
            let right = if i % cols + 1 < cols && i + 1 < n { mid.subrange(before.len() as int, mid.len() as int) } else { Seq::empty() };
            assert(mid =~= before + right);
            assert(links@ =~= grid_links_upto(segs, pls, cols as int, rows as int, i + 1));
            assert forall|j: int| 0 <= j < links@.len() implies link_fits(segs, #[trigger] links@[j]) by {
                if j < before.len() {
                    assert(links@[j] == before[j]);
                }
            }
        }
        i = i + 1;
    }
    let ghost lks = grid_links(segs, config.corridor_width as int, config.corridor_height as int);
    assert(links@ == lks);
    let g = build_level(parsed, &placements, &links, total_width, total_height, config, lerp);
    let tilemap = grid_text(&g);
    proof {
        lemma_level_text(grid(&g), tilemap@, total_width as int, total_height as int);
        let last = segs.len() - 1;
        assert(widths(segs)[0] == segs[0].width && widths(segs0)[0] == segs0[0].width);
        assert(widths(segs)[last] == segs[last].width && widths(segs0)[last] == segs0[last].width);
        assert(heights(segs)[0] == segs[0].height && heights(segs)[last] == segs[last].height);
        if has_tile(grid(&g), 'P') {
            lemma_text_has_tile(grid(&g), 'P');
        }
        if has_tile(grid(&g), '>') {
            lemma_text_has_tile(grid(&g), '>');
        }
    }
    LinkedLevel {
        tilemap,
        width: total_width,
        height: total_height,
        segment_names: names,
        success: true,
        layout: LayoutStrategy::Grid,
    }
}

} // verus!
