//! Assembling a level from placed segments and the corridors between
//! them: the part every layout shares.

use vstd::prelude::*;
use crate::segment_linker::assemble::{
    blank_grid, corridor_path, dim_limit, lemma_placements_ok, lemma_rect_carve_h_ok, lemma_rect_carve_v_ok,
    lemma_rect_markers_ok, lemma_rect_punch_ok, lerp_ok, paste_all, pasted, rectangular, seg_fits, wall_grid,
};
use crate::segment_linker::corridors::{
    carve_horizontal_corridor, carve_vertical_corridor, carved_h, carved_v, find_entry_row, find_exit_row,
    find_vertical_entry_col, find_vertical_exit_col, hrow_result, lemma_hrow_unique, lemma_vcol_unique, punch_through_wall,
    punched, vc_span, vcol_result,
};
use crate::segment_linker::grid::{first_width, grid};
use crate::segment_linker::placement::{ensure_spawn_exit, has_tile, marker_step};
use crate::segment_linker::segment::{ParsedSegment, SegmentPlacement};
use crate::segment_linker::types::{LinkDirection, SegmentLinkerConfig};
use crate::text::{join_lines, lemma_join_lines_contains};

verus! {

/// A corridor from segment `from` to segment `to`, which lies to its
/// right (`Right`), above it (`Up`) or below it (`Down`); `len` is the
/// corridor's length in tiles.
#[derive(Clone, Copy, Debug, PartialEq, Eq, Structural)]
pub struct CorridorLink {
    pub from: usize,
    pub to: usize,
    pub dir: LinkDirection,
    pub len: usize,
}

/// The row `find_exit_row` picks.
pub open spec fn exit_row(seg: &ParsedSegment, y_offset: int, max_height: int, search_min: int) -> int {
    choose|r: int| hrow_result(seg, true, y_offset, max_height, search_min, r)
}

/// The row `find_entry_row` picks.
pub open spec fn entry_row(seg: &ParsedSegment, y_offset: int, max_height: int, search_min: int) -> int {
    choose|r: int| hrow_result(seg, false, y_offset, max_height, search_min, r)
}

/// The column `find_vertical_exit_col` picks.
pub open spec fn exit_col(seg: &ParsedSegment, x_offset: int, max_width: int) -> int {
    choose|c: int| vcol_result(seg, true, x_offset, max_width, c)
}

/// The column `find_vertical_entry_col` picks.
pub open spec fn entry_col(seg: &ParsedSegment, x_offset: int, max_width: int) -> int {
    choose|c: int| vcol_result(seg, false, x_offset, max_width, c)
}

/// Where a corridor leaves its first segment and enters its second: rows
/// for a horizontal corridor, columns for a vertical one.
pub open spec fn link_ends(segs: Seq<ParsedSegment>, pls: Seq<SegmentPlacement>, l: CorridorLink, w: int, h: int, search_min: int) -> (int, int) {
    let a = segs[l.from as int];
    let b = segs[l.to as int];
    let p = pls[l.from as int];
    let q = pls[l.to as int];
    if l.dir == LinkDirection::Right {
        (exit_row(&a, p.y as int, h, search_min), entry_row(&b, q.y as int, h, search_min))
    } else {
        (exit_col(&a, p.x as int, w), entry_col(&b, q.x as int, w))
    }
}

/// First and last row of a vertical corridor, as handed to the carving.
pub open spec fn shaft_rows(segs: Seq<ParsedSegment>, pls: Seq<SegmentPlacement>, l: CorridorLink) -> (int, int) {
    let a = segs[l.from as int];
    let b = segs[l.to as int];
    let p = pls[l.from as int];
    let q = pls[l.to as int];
    if l.dir == LinkDirection::Up {
        (q.y + b.height, p.y as int)
    } else {
        (p.y + a.height, q.y as int)
    }
}

/// Step count for a horizontal corridor's interpolation: one less than
/// its length, or zero for a corridor of at most one column.
pub open spec fn path_denom(len: int) -> int {
    if len > 1 { len - 1 } else { 0 }
}

/// `path` is what `lerp` gives along the corridor: for a horizontal one
/// the row at each of its columns, for a vertical one the shaft's column
/// at each of its rows.
pub open spec fn path_fits<F: Fn(usize, usize, usize, usize) -> usize>(
    lerp: &F, segs: Seq<ParsedSegment>, pls: Seq<SegmentPlacement>, l: CorridorLink, path: Seq<usize>, w: int, h: int, search_min: int,
) -> bool {
    let ends = link_ends(segs, pls, l, w, h, search_min);
    if l.dir == LinkDirection::Right {
        &&& path.len() == l.len
        &&& forall|j: int| 0 <= j < path.len()
            ==> lerp.ensures((ends.0 as usize, ends.1 as usize, j as usize, path_denom(l.len as int) as usize), #[trigger] path[j])
    } else {
        let rows = shaft_rows(segs, pls, l);
        let span = vc_span(rows.0, rows.1, l.len as int, h);
        let n = if span.1 > span.0 { span.1 - span.0 } else { 0 };
        &&& path.len() == n
        &&& forall|k: int| 0 <= k < path.len()
            ==> lerp.ensures((ends.0 as usize, ends.1 as usize, k as usize, n as usize), #[trigger] path[k])
    }
}

/// The grid after one corridor: both walls punched through (the first
/// segment's side first), then the corridor carved along `path`.
pub open spec fn carve_link(
    gr: Seq<Seq<char>>, segs: Seq<ParsedSegment>, pls: Seq<SegmentPlacement>, l: CorridorLink, path: Seq<usize>,
    w: int, h: int, corridor_height: int, search_min: int,
) -> Seq<Seq<char>> {
    let a = segs[l.from as int];
    let b = segs[l.to as int];
    let p = pls[l.from as int];
    let q = pls[l.to as int];
    let ends = link_ends(segs, pls, l, w, h, search_min);
    if l.dir == LinkDirection::Right {
        let g1 = punched(gr, p.x + a.width - 1, ends.0, LinkDirection::Right, corridor_height);
        let g2 = punched(g1, q.x as int, ends.1, LinkDirection::Left, corridor_height);
        carved_h(g2, p.x + a.width, ends.0, ends.1, corridor_height, path)
    } else if l.dir == LinkDirection::Up {
        let g1 = punched(gr, ends.0, p.y as int, LinkDirection::Up, corridor_height);
        let g2 = punched(g1, ends.1, q.y + b.height - 1, LinkDirection::Down, corridor_height);
        carved_v(g2, q.y + b.height, p.y as int, l.len as int, path)
    } else {
        let g1 = punched(gr, ends.0, p.y + a.height - 1, LinkDirection::Down, corridor_height);
        let g2 = punched(g1, ends.1, q.y as int, LinkDirection::Up, corridor_height);
        carved_v(g2, p.y + a.height, q.y as int, l.len as int, path)
    }
}

/// The grid after the first `k` corridors, in order.
pub open spec fn carve_links(
    gr: Seq<Seq<char>>, segs: Seq<ParsedSegment>, pls: Seq<SegmentPlacement>, links: Seq<CorridorLink>, paths: Seq<Seq<usize>>,
    w: int, h: int, corridor_height: int, search_min: int, k: int,
) -> Seq<Seq<char>>
    decreases k,
{
    if k <= 0 {
        gr
    } else {
        carve_link(
            carve_links(gr, segs, pls, links, paths, w, h, corridor_height, search_min, k - 1),
            segs, pls, links[k - 1], paths[k - 1], w, h, corridor_height, search_min,
        )
    }
}

/// The assembled level: a `w` by `h` block of walls, every segment pasted
/// at its placement, every corridor carved in order, then a spawn placed
/// in the first segment and an exit in the last where they are missing.
pub open spec fn linked_grid(
    segs: Seq<ParsedSegment>, pls: Seq<SegmentPlacement>, links: Seq<CorridorLink>, paths: Seq<Seq<usize>>,
    w: int, h: int, corridor_height: int, search_min: int,
) -> Seq<Seq<char>> {
    let g0 = pasted(wall_grid(w as nat, h as nat), segs, pls, pls.len() as int);
    let g1 = carve_links(g0, segs, pls, links, paths, w, h, corridor_height, search_min, links.len() as int);
    let g2 = marker_step(g1, &segs[0], &pls[0], 'P', true);
    marker_step(g2, &segs[segs.len() - 1], &pls[segs.len() - 1], '>', false)
}

/// Every corridor's path is what `lerp` gives for it.
pub open spec fn paths_fit<F: Fn(usize, usize, usize, usize) -> usize>(
    lerp: &F, segs: Seq<ParsedSegment>, pls: Seq<SegmentPlacement>, links: Seq<CorridorLink>, paths: Seq<Seq<usize>>,
    w: int, h: int, search_min: int,
) -> bool {
    &&& paths.len() == links.len()
    &&& forall|k: int| 0 <= k < links.len() ==> path_fits(lerp, segs, pls, #[trigger] links[k], paths[k], w, h, search_min)
}

/// `s` is the text of a level assembled by `linked_grid`, one row per
/// line, for some corridor paths that `lerp` gives.
pub open spec fn linked_text<F: Fn(usize, usize, usize, usize) -> usize>(
    s: Seq<char>, lerp: &F, segs: Seq<ParsedSegment>, pls: Seq<SegmentPlacement>, links: Seq<CorridorLink>,
    w: int, h: int, config: &SegmentLinkerConfig,
) -> bool {
    exists|paths: Seq<Seq<usize>>| #[trigger] paths_fit(lerp, segs, pls, links, paths, w, h, config.corridor_column_search_min as int)
        && s == join_lines(linked_grid(segs, pls, links, paths, w, h,
            config.corridor_height as int, config.corridor_column_search_min as int))
}

/// Segment `k` is placed as the `k`-th placement, inside a `w` by `h`
/// level of bounded size.
pub open spec fn placements_fit(segs: Seq<ParsedSegment>, pls: Seq<SegmentPlacement>, w: int, h: int) -> bool {
    &&& segs.len() >= 1
    &&& pls.len() == segs.len()
    &&& 0 <= w <= dim_limit()
    &&& 0 <= h <= dim_limit()
    &&& forall|i: int| 0 <= i < segs.len() ==> seg_fits(#[trigger] segs[i])
    &&& forall|k: int| 0 <= k < pls.len() ==> {
        &&& (#[trigger] pls[k]).segment_idx == k
        &&& pls[k].x + segs[k].width <= w
        &&& pls[k].y + segs[k].height <= h
    }
}

/// A corridor joins two placed segments; its first segment has a size.
pub open spec fn link_fits(segs: Seq<ParsedSegment>, l: CorridorLink) -> bool {
    &&& l.from < segs.len()
    &&& l.to < segs.len()
    &&& l.dir != LinkDirection::Left
    &&& segs[l.from as int].width >= 1
    &&& segs[l.from as int].height >= 1
    &&& segs[l.to as int].height >= 1
    &&& l.len <= dim_limit()
}

/// Every corridor fits.
pub open spec fn links_fit(segs: Seq<ParsedSegment>, links: Seq<CorridorLink>) -> bool {
    forall|k: int| 0 <= k < links.len() ==> link_fits(segs, #[trigger] links[k])
}

/// What the row and column searches return is what the spec functions
/// above name.
proof fn lemma_search_results(seg: &ParsedSegment, right: bool, off: int, lim: int, search_min: int, res: int)
    ensures
        right && hrow_result(seg, true, off, lim, search_min, res) ==> res == exit_row(seg, off, lim, search_min),
        !right && hrow_result(seg, false, off, lim, search_min, res) ==> res == entry_row(seg, off, lim, search_min),
        right && vcol_result(seg, true, off, lim, res) ==> res == exit_col(seg, off, lim),
        !right && vcol_result(seg, false, off, lim, res) ==> res == entry_col(seg, off, lim),
{
    if right && hrow_result(seg, true, off, lim, search_min, res) {
        lemma_hrow_unique(seg, true, off, lim, search_min, res, exit_row(seg, off, lim, search_min));
    }
    if !right && hrow_result(seg, false, off, lim, search_min, res) {
        lemma_hrow_unique(seg, false, off, lim, search_min, res, entry_row(seg, off, lim, search_min));
    }
    if right && vcol_result(seg, true, off, lim, res) {
        lemma_vcol_unique(seg, true, off, lim, res, exit_col(seg, off, lim));
    }
    if !right && vcol_result(seg, false, off, lim, res) {
        lemma_vcol_unique(seg, false, off, lim, res, entry_col(seg, off, lim));
    }
}

/// Carves one corridor: finds where it leaves and enters, punches both
/// walls, then carves it along the path `lerp` gives, which is returned.
fn apply_link<F: Fn(usize, usize, usize, usize) -> usize>(
    g: &mut Vec<Vec<char>>, segs: &Vec<ParsedSegment>, pls: &Vec<SegmentPlacement>, l: CorridorLink,
    w: usize, h: usize, config: &SegmentLinkerConfig, lerp: &F,
) -> (path: Ghost<Seq<usize>>)
    requires
        rectangular(grid(old(g)), w as int, h as int),
        placements_fit(segs@, pls@, w as int, h as int),
        link_fits(segs@, l),
        config.corridor_height <= dim_limit(),
        config.corridor_column_search_min >= 1,
        lerp_ok(lerp),
    ensures
        rectangular(grid(final(g)), w as int, h as int),
        path_fits(lerp, segs@, pls@, l, path@, w as int, h as int, config.corridor_column_search_min as int),
        grid(final(g)) == carve_link(grid(old(g)), segs@, pls@, l, path@, w as int, h as int,
            config.corridor_height as int, config.corridor_column_search_min as int),
{
    let ghost sv = segs@;
    let ghost pv = pls@;
    let ghost sm = config.corridor_column_search_min as int;
    let ch = config.corridor_height;
    let a = &segs[l.from];
    let b = &segs[l.to];
    let p = &pls[l.from];
    let q = &pls[l.to];
    assert(pv[l.from as int] == *p && pv[l.to as int] == *q);
    assert(sv[l.from as int] == *a && sv[l.to as int] == *b);
    assert(seg_fits(*a) && seg_fits(*b));
    if l.dir == LinkDirection::Right {
        let e0 = find_exit_row(a, p.y, h, config.corridor_column_search_min);
        let e1 = find_entry_row(b, q.y, h, config.corridor_column_search_min);
        proof {
            lemma_search_results(a, true, p.y as int, h as int, sm, e0 as int);
            lemma_search_results(b, false, q.y as int, h as int, sm, e1 as int);
            lemma_rect_punch_ok(grid(g), w as int, h as int, (p.x + a.width - 1) as int, e0 as int, LinkDirection::Right, ch as int);
        }
        punch_through_wall(g, p.x + a.width - 1, e0, LinkDirection::Right, ch);
        proof { lemma_rect_punch_ok(grid(g), w as int, h as int, q.x as int, e1 as int, LinkDirection::Left, ch as int); }
        punch_through_wall(g, q.x, e1, LinkDirection::Left, ch);
        let path = corridor_path(lerp, e0, e1, l.len, if l.len > 1 { l.len - 1 } else { 0 });
        proof {
            lemma_rect_carve_h_ok(grid(g), w as int, h as int, (p.x + a.width) as int, e0 as int, e1 as int, ch as int, path@);
        }
        carve_horizontal_corridor(g, p.x + a.width, e0, l.len, e1, ch, &path);
        assert(link_ends(sv, pv, l, w as int, h as int, sm) == (e0 as int, e1 as int));
        Ghost(path@)
    } else {
        let up = l.dir == LinkDirection::Up;
        let e0 = find_vertical_exit_col(a, p.x, w);
        let e1 = find_vertical_entry_col(b, q.x, w);
        proof {
            lemma_search_results(a, true, p.x as int, w as int, sm, e0 as int);
            lemma_search_results(b, false, q.x as int, w as int, sm, e1 as int);
        }
        let (y0, d0, y1, d1) = if up {
            (p.y, LinkDirection::Up, q.y + b.height - 1, LinkDirection::Down)
        } else {
            (p.y + a.height - 1, LinkDirection::Down, q.y, LinkDirection::Up)
        };
        proof { lemma_rect_punch_ok(grid(g), w as int, h as int, e0 as int, y0 as int, d0, ch as int); }
        punch_through_wall(g, e0, y0, d0, ch);
        proof { lemma_rect_punch_ok(grid(g), w as int, h as int, e1 as int, y1 as int, d1, ch as int); }
        punch_through_wall(g, e1, y1, d1, ch);
        let (sy, ey) = if up { (q.y + b.height, p.y) } else { (p.y + a.height, q.y) };
        let lo = if sy <= ey { sy } else { ey };
        let top = (if sy <= ey { ey } else { sy }) + l.len;
        let hi = if top < h { top } else { h };
        let n = if hi > lo { hi - lo } else { 0 };
        assert(vc_span(sy as int, ey as int, l.len as int, h as int) == (lo as int, hi as int));
        let path = corridor_path(lerp, e0, e1, n, n);
        proof {
            lemma_rect_carve_v_ok(grid(g), w as int, h as int, sy as int, ey as int, l.len as int, path@);
        }
        carve_vertical_corridor(g, e0, sy, l.len, ey, e1, &path);
        assert(link_ends(sv, pv, l, w as int, h as int, sm) == (e0 as int, e1 as int));

        Ghost(path@)
    }
}

/// Builds the level grid: walls everywhere, the segments pasted at their
/// placements, the corridors carved in order, then spawn and exit ensured.
/// The corridors' paths are those `lerp` gives.
pub fn build_level<F: Fn(usize, usize, usize, usize) -> usize>(
    segs: &Vec<ParsedSegment>, pls: &Vec<SegmentPlacement>, links: &Vec<CorridorLink>,
    w: usize, h: usize, config: &SegmentLinkerConfig, lerp: &F,
) -> (g: Vec<Vec<char>>)
    requires
        placements_fit(segs@, pls@, w as int, h as int),
        links_fit(segs@, links@),
        config.corridor_height <= dim_limit(),
        config.corridor_column_search_min >= 1,
        lerp_ok(lerp),
    ensures
        rectangular(grid(&g), w as int, h as int),
        exists|paths: Seq<Seq<usize>>| #[trigger] paths_fit(lerp, segs@, pls@, links@, paths, w as int, h as int,
            config.corridor_column_search_min as int)
            && grid(&g) == linked_grid(segs@, pls@, links@, paths, w as int, h as int,
                config.corridor_height as int, config.corridor_column_search_min as int),
        w >= 2 && segs@[0].width >= 1 && segs@[0].height >= 1 ==> has_tile(grid(&g), 'P'),
        w >= 2 && segs@[segs@.len() - 1].width >= 1 && segs@[segs@.len() - 1].height >= 1 ==> has_tile(grid(&g), '>'),
{
    let ghost sv = segs@;
    let ghost pv = pls@;
    let ghost ch = config.corridor_height as int;
    let ghost sm = config.corridor_column_search_min as int;
    let mut g = blank_grid(w, h);
    assert(rectangular(wall_grid(w as nat, h as nat), w as int, h as int));
    proof { lemma_placements_ok(sv, pv); }
    paste_all(&mut g, segs, pls, w, h);
    let ghost g0 = grid(&g);
    let ghost mut paths: Seq<Seq<usize>> = Seq::empty();
    let n = links.len();
    let mut k: usize = 0;
    while k < n
        invariant
            sv == segs@,
            pv == pls@,
            n == links@.len(),
            k <= n,
            ch == config.corridor_height,
            sm == config.corridor_column_search_min,
            placements_fit(sv, pv, w as int, h as int),
            links_fit(sv, links@),
            config.corridor_height <= dim_limit(),
            config.corridor_column_search_min >= 1,
            lerp_ok(lerp),
            rectangular(grid(&g), w as int, h as int),
            paths.len() == k,
            forall|j: int| 0 <= j < k ==> path_fits(lerp, sv, pv, #[trigger] links@[j], paths[j], w as int, h as int, sm),
            grid(&g) == carve_links(g0, sv, pv, links@, paths, w as int, h as int, ch, sm, k as int),
        decreases n - k,
    {
        let ghost before = grid(&g);
        let l = links[k];
        assert(link_fits(sv, links@[k as int]));
        let path = apply_link(&mut g, segs, pls, l, w, h, config, lerp);
        proof {
            let old_paths = paths;
            paths = paths.push(path@);
            assert forall|j: int| 0 <= j < k + 1 implies path_fits(lerp, sv, pv, #[trigger] links@[j], paths[j], w as int, h as int, sm) by {
                if j < k {
                    assert(paths[j] == old_paths[j]);
                }
            }
            assert forall|j: int| 0 <= j <= k implies #[trigger] carve_links(g0, sv, pv, links@, paths, w as int, h as int, ch, sm, j)
                == carve_links(g0, sv, pv, links@, old_paths, w as int, h as int, ch, sm, j) by {
                lemma_carve_links_prefix(g0, sv, pv, links@, paths, old_paths, w as int, h as int, ch, sm, j);
            }
            assert(carve_links(g0, sv, pv, links@, paths, w as int, h as int, ch, sm, k as int) == before);
            assert(paths[k as int] == path@);
            assert(links@[k as int] == l);
            assert(carve_links(g0, sv, pv, links@, paths, w as int, h as int, ch, sm, k + 1)
                == carve_link(before, sv, pv, l, path@, w as int, h as int, ch, sm));
        }
        k = k + 1;
    }
    let ghost g1 = grid(&g);
    proof {
        assert(rectangular(g0, w as int, h as int));
        lemma_rect_markers_ok(g1, sv, pv, w as int, h as int);
        if h > 0 {
            assert(first_width(g1) == w);
        }
        let last = sv.len() - 1;
        assert(pv[0].segment_idx == 0 && pv[last].segment_idx == last);
    }
    ensure_spawn_exit(&mut g, segs, h, pls);
    assert(paths_fit(lerp, sv, pv, links@, paths, w as int, h as int, sm));
    g
}

/// Carving the first `k` corridors looks only at the first `k` paths.
proof fn lemma_carve_links_prefix(
    gr: Seq<Seq<char>>, segs: Seq<ParsedSegment>, pls: Seq<SegmentPlacement>, links: Seq<CorridorLink>,
    p1: Seq<Seq<usize>>, p2: Seq<Seq<usize>>, w: int, h: int, corridor_height: int, search_min: int, k: int,
)
    requires
        k <= p1.len(),
        k <= p2.len(),
        forall|j: int| 0 <= j < k ==> #[trigger] p1[j] == p2[j],
    ensures
        carve_links(gr, segs, pls, links, p1, w, h, corridor_height, search_min, k)
            == carve_links(gr, segs, pls, links, p2, w, h, corridor_height, search_min, k),
    decreases k,
{
    if k > 0 {
        lemma_carve_links_prefix(gr, segs, pls, links, p1, p2, w, h, corridor_height, search_min, k - 1);
    }
}

/// A tile the grid holds appears in its text.
pub proof fn lemma_text_has_tile(gr: Seq<Seq<char>>, ch: char)
    requires
        has_tile(gr, ch),
    ensures
        join_lines(gr).contains(ch),
{
    let (r, c) = choose|r: int, c: int| 0 <= r < gr.len() && 0 <= c < gr[r].len() && #[trigger] gr[r][c] == ch;
    lemma_join_lines_contains(gr, r, c);
}

} // verus!
