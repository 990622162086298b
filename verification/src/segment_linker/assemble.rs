//! Building blocks shared by the layouts: the blank level, pasting
//! segments into it, marker stripping and the final text.

use vstd::prelude::*;
use crate::segment_linker::corridors::{carve_h_ok, carve_v_ok, hc_clears, hc_platform, punch_ok, punch_writes, vc_clears, vc_platform, vc_span};
use crate::segment_linker::grid::{first_width, grid, push_row, set_cell, write_cell};
use crate::segment_linker::placement::{marker_search_fits, rows_cover_width};
use crate::segment_linker::types::{LinkDirection, SegmentLinkerConfig};
use crate::segment_linker::segment::{blank_marker, filled_row, ParsedSegment, SegmentPlacement};
use crate::text::{chars_to_string, join_lines, join_rows};

verus! {

/// `gr` has `h` rows of `w` tiles each.
pub open spec fn rectangular(gr: Seq<Seq<char>>, w: int, h: int) -> bool {
    &&& gr.len() == h
    &&& forall|r: int| 0 <= r < h ==> #[trigger] gr[r].len() == w
}

/// `h` rows of `w` walls.
pub open spec fn wall_grid(w: nat, h: nat) -> Seq<Seq<char>> {
    Seq::new(h, |_r: int| Seq::new(w, |_c: int| '#'))
}

/// Builds `h` rows of `w` walls.
pub fn blank_grid(w: usize, h: usize) -> (g: Vec<Vec<char>>)
    ensures
        grid(&g) == wall_grid(w as nat, h as nat),
{
    let mut g: Vec<Vec<char>> = Vec::new();
    let mut i: usize = 0;
    while i < h
        invariant
            i <= h,
            grid(&g) == wall_grid(w as nat, i as nat),
        decreases h - i,
    {
        let row = filled_row('#', w);
        assert(row@ =~= Seq::new(w as nat, |_c: int| '#'));
        push_row(&mut g, row);
        i = i + 1;
        assert(grid(&g) =~= wall_grid(w as nat, i as nat));
    }
    g
}

/// `gr` with `tiles` pasted so that their top-left corner lands on column
/// `px`, row `py`; tiles falling outside `gr` are dropped.
pub open spec fn paste(gr: Seq<Seq<char>>, tiles: Seq<Seq<char>>, px: int, py: int) -> Seq<Seq<char>> {
    Seq::new(gr.len(), |r: int| Seq::new(gr[r].len(), |c: int|
        if py <= r < py + tiles.len() && px <= c < px + tiles[r - py].len() {
            tiles[r - py][c - px]
        } else {
            gr[r][c]
        }))
}

/// `gr` with the segments of the first `k` placements pasted in order.
pub open spec fn pasted(gr: Seq<Seq<char>>, segs: Seq<ParsedSegment>, pls: Seq<SegmentPlacement>, k: int) -> Seq<Seq<char>>
    decreases k,
{
    if k <= 0 {
        gr
    } else {
        let p = pls[k - 1];
        paste(pasted(gr, segs, pls, k - 1), segs[p.segment_idx as int].tile_grid(), p.x as int, p.y as int)
    }
}

/// Every placement names a segment and stays within `usize` arithmetic.
pub open spec fn placements_ok(segs: Seq<ParsedSegment>, pls: Seq<SegmentPlacement>) -> bool {
    forall|k: int| 0 <= k < pls.len() ==> {
        let p = #[trigger] pls[k];
        &&& p.segment_idx < segs.len()
        &&& p.y + segs[p.segment_idx as int].tile_grid().len() <= usize::MAX
        &&& forall|r: int| 0 <= r < segs[p.segment_idx as int].tile_grid().len()
            ==> p.x + #[trigger] segs[p.segment_idx as int].tile_grid()[r].len() <= usize::MAX
    }
}

/// Pastes one segment's tiles at `(px, py)` into a `w` by `h` grid.
fn paste_segment(g: &mut Vec<Vec<char>>, seg: &ParsedSegment, px: usize, py: usize, w: usize, h: usize)
    requires
        rectangular(grid(old(g)), w as int, h as int),
        py + seg.tile_grid().len() <= usize::MAX,
        forall|r: int| 0 <= r < seg.tile_grid().len() ==> px + #[trigger] seg.tile_grid()[r].len() <= usize::MAX,
    ensures
        grid(final(g)) == paste(grid(old(g)), seg.tile_grid(), px as int, py as int),
        rectangular(grid(final(g)), w as int, h as int),
{
    let ghost g0 = grid(g);
    let ghost t = seg.tile_grid();
    let n = seg.tiles.len();
    let mut sy: usize = 0;
    while sy < n
        invariant
            g0 == grid(old(g)),
            t == seg.tile_grid(),
            n == t.len(),
            sy <= n,
            rectangular(g0, w as int, h as int),
            py + t.len() <= usize::MAX,
            forall|r: int| 0 <= r < t.len() ==> px + #[trigger] t[r].len() <= usize::MAX,
            rectangular(grid(g), w as int, h as int),
            forall|r: int, c: int| 0 <= r < h && 0 <= c < w ==> #[trigger] grid(g)[r][c] ==
                if py <= r < py + sy && px <= c < px + t[r - py].len() { t[r - py][c - px] } else { g0[r][c] },
        decreases n - sy,
    {
        let ty = py + sy;
        if ty < h {
            let row = &seg.tiles[sy];
            let m = row.len();
            assert(row@ == t[sy as int]);
            assert(px + t[sy as int].len() <= usize::MAX);
            let mut sx: usize = 0;
            while sx < m
                invariant
                    g0 == grid(old(g)),
                    t == seg.tile_grid(),
                    n == t.len(),
                    sy < n,
                    ty == py + sy,
                    ty < h,
                    row@ == t[sy as int],
                    m == row@.len(),
                    sx <= m,
                    rectangular(g0, w as int, h as int),
                    px + m <= usize::MAX,
                    rectangular(grid(g), w as int, h as int),
                    forall|r: int, c: int| 0 <= r < h && 0 <= c < w ==> #[trigger] grid(g)[r][c] ==
                        if (py <= r < py + sy && px <= c < px + t[r - py].len()) || (r == ty && px <= c < px + sx) {
                            t[r - py][c - px]
                        } else {
                            g0[r][c]
                        },
                decreases m - sx,
            {
                let tx = px + sx;
                if tx < w {
                    assert(g@[ty as int]@ == grid(g)[ty as int]);
                    write_cell(g, ty, tx, row[sx]);
                }
                sx = sx + 1;
            }
        }
        sy = sy + 1;
    }
    assert forall|r: int| 0 <= r < h implies #[trigger] grid(g)[r] =~= paste(g0, t, px as int, py as int)[r] by {}
    assert(grid(g) =~= paste(g0, t, px as int, py as int));
}

/// Pastes the segments of all placements, in order, into a `w` by `h`
/// grid.
pub fn paste_all(g: &mut Vec<Vec<char>>, segs: &Vec<ParsedSegment>, pls: &Vec<SegmentPlacement>, w: usize, h: usize)
    requires
        rectangular(grid(old(g)), w as int, h as int),
        placements_ok(segs@, pls@),
    ensures
        grid(final(g)) == pasted(grid(old(g)), segs@, pls@, pls@.len() as int),
        rectangular(grid(final(g)), w as int, h as int),
{
    let ghost g0 = grid(g);
    let n = pls.len();
    let mut k: usize = 0;
    while k < n
        invariant
            g0 == grid(old(g)),
            n == pls@.len(),
            k <= n,
            placements_ok(segs@, pls@),
            rectangular(grid(g), w as int, h as int),
            grid(g) == pasted(g0, segs@, pls@, k as int),
        decreases n - k,
    {
        let p = &pls[k];
        assert(p == pls@[k as int]);
        paste_segment(g, &segs[p.segment_idx], p.x, p.y, w, h);
        k = k + 1;
    }
}

/// A segment after link preparation: the first keeps only its spawn, the
/// last only its exit, the others lose both markers.
pub open spec fn prepared(old_seg: ParsedSegment, new_seg: ParsedSegment, i: int, n: int) -> bool {
    let keep_spawn = i == 0;
    let keep_exit = i == n - 1 && i != 0;
    let g1 = if keep_spawn { old_seg.tile_grid() } else { blank_marker(old_seg.tile_grid(), old_seg.spawn_pos) };
    let g2 = if keep_exit { g1 } else { blank_marker(g1, old_seg.exit_pos) };
    &&& new_seg.tile_grid() == g2
    &&& new_seg.spawn_pos == (if keep_spawn { old_seg.spawn_pos } else { None })
    &&& new_seg.exit_pos == (if keep_exit { old_seg.exit_pos } else { None })
    &&& new_seg.name == old_seg.name
    &&& new_seg.width == old_seg.width
    &&& new_seg.height == old_seg.height
}

/// Strips markers so that only the first segment keeps a spawn and only
/// the last keeps an exit.
pub fn strip_inner_markers(parsed: &mut Vec<ParsedSegment>)
    ensures
        final(parsed)@.len() == old(parsed)@.len(),
        forall|i: int| 0 <= i < old(parsed)@.len()
            ==> prepared(#[trigger] old(parsed)@[i], final(parsed)@[i], i, old(parsed)@.len() as int),
{
    let n = parsed.len();
    let mut i: usize = 0;
    while i < n
        invariant
            n == parsed@.len(),
            n == old(parsed)@.len(),
            i <= n,
            forall|k: int| 0 <= k < i ==> prepared(#[trigger] old(parsed)@[k], parsed@[k], k, n as int),
            forall|k: int| i <= k < n ==> #[trigger] parsed@[k] == old(parsed)@[k],
        decreases n - i,
    {
        let mut seg = parsed.remove(i);
        let ghost before = seg;
        if i == 0 {
            seg.strip_exit();
        } else if i == n - 1 {
            seg.strip_spawn();
        } else {
            seg.strip_spawn();
            seg.strip_exit();
        }
        assert(prepared(before, seg, i as int, n as int));
        parsed.insert(i, seg);
        i = i + 1;
    }
}

/// Names of all segments, in order.
pub fn segment_names(parsed: &Vec<ParsedSegment>) -> (names: Vec<String>)
    ensures
        names@.len() == parsed@.len(),
        forall|i: int| 0 <= i < parsed@.len() ==> #[trigger] names@[i]@ == parsed@[i].name@,
{
    let mut names: Vec<String> = Vec::new();
    let n = parsed.len();
    let mut i: usize = 0;
    while i < n
        invariant
            n == parsed@.len(),
            i <= n,
            names@.len() == i,
            forall|k: int| 0 <= k < i ==> #[trigger] names@[k]@ == parsed@[k].name@,
        decreases n - i,
    {
        names.push(parsed[i].name.clone());
        i = i + 1;
    }
    names
}

/// The rows of a grid joined with newlines.
pub fn grid_text(g: &Vec<Vec<char>>) -> (s: String)
    ensures
        s@ == join_lines(grid(g)),
{
    let chars = join_rows(g);
    assert(Seq::new(g@.len(), |i: int| g@[i]@) =~= grid(g));
    chars_to_string(&chars)
}

/// `lerp` can be called on any arguments and never goes past the larger
/// of its two ends.
pub open spec fn lerp_ok<F: Fn(usize, usize, usize, usize) -> usize>(lerp: &F) -> bool {
    &&& forall|a: usize, b: usize, i: usize, d: usize| #[trigger] lerp.requires((a, b, i, d))
    &&& forall|a: usize, b: usize, i: usize, d: usize, r: usize| #[trigger] lerp.ensures((a, b, i, d), r)
        ==> r <= (if a >= b { a } else { b })
}

/// The `count` positions of a corridor running from `start` to `end`:
/// position `i` is `lerp(start, end, i, denom)`, the point a fraction
/// `i / denom` of the way along.
pub fn corridor_path<F: Fn(usize, usize, usize, usize) -> usize>(lerp: &F, start: usize, end: usize, count: usize, denom: usize) -> (path: Vec<usize>)
    requires
        lerp_ok(lerp),
    ensures
        path@.len() == count,
        forall|i: int| 0 <= i < count ==> lerp.ensures((start, end, i as usize, denom), #[trigger] path@[i]),
        forall|i: int| 0 <= i < count ==> #[trigger] path@[i] <= (if start >= end { start } else { end }),
{
    let mut path: Vec<usize> = Vec::new();
    let mut i: usize = 0;
    while i < count
        invariant
            lerp_ok(lerp),
            i <= count,
            path@.len() == i,
            forall|k: int| 0 <= k < i ==> lerp.ensures((start, end, k as usize, denom), #[trigger] path@[k]),
            forall|k: int| 0 <= k < i ==> #[trigger] path@[k] <= (if start >= end { start } else { end }),
        decreases count - i,
    {
        assert(lerp.requires((start, end, i, denom)));
        let p = lerp(start, end, i, denom);
        path.push(p);
        i = i + 1;
    }
    path
}

/// Largest segment or level dimension the layouts accept, 2^28 - 1. The
/// marker and corridor searches compute positions in `i32`, and a
/// corridor's coordinates add up to at most eight dimensions (placement,
/// segment size, corridor size and clearance), so with every dimension
/// below 2^28 each such sum stays below `i32::MAX`.
pub open spec fn dim_limit() -> int {
    0x0fff_ffff
}

/// A segment's size, and that of each of its tile rows, stays below
/// `dim_limit`.
pub open spec fn seg_fits(seg: ParsedSegment) -> bool {
    &&& seg.width <= dim_limit()
    &&& seg.height <= dim_limit()
    &&& seg.tile_grid().len() <= dim_limit()
    &&& forall|r: int| 0 <= r < seg.tile_grid().len() ==> #[trigger] seg.tile_grid()[r].len() <= dim_limit()
}

/// What every layout needs: at least one segment, all of bounded size,
/// every segment but the last at least one tile wide (a corridor leaves
/// it through its last column), bounded corridor sizes, and a column
/// search that starts at least one tile in.
pub open spec fn layout_input_ok(segs: Seq<ParsedSegment>, config: &SegmentLinkerConfig) -> bool {
    &&& segs.len() >= 1
    &&& segs.len() <= dim_limit()
    &&& forall|i: int| 0 <= i < segs.len() ==> seg_fits(#[trigger] segs[i])
    &&& forall|i: int| 0 <= i < segs.len() - 1 ==> #[trigger] segs[i].width >= 1
    &&& forall|i: int| 0 <= i < segs.len() ==> #[trigger] segs[i].height >= 1
    &&& config.corridor_width <= dim_limit()
    &&& config.corridor_height <= dim_limit()
    &&& config.corridor_column_search_min >= 1
}

/// Widths of the segments, in order.
pub open spec fn widths(segs: Seq<ParsedSegment>) -> Seq<int> {
    Seq::new(segs.len(), |i: int| segs[i].width as int)
}

/// Heights of the segments, in order.
pub open spec fn heights(segs: Seq<ParsedSegment>) -> Seq<int> {
    Seq::new(segs.len(), |i: int| segs[i].height as int)
}

/// Largest of the first `k` values (zero when `k` is zero).
pub open spec fn max_of(vals: Seq<int>, k: int) -> int
    decreases k,
{
    if k <= 0 {
        0
    } else {
        let m = max_of(vals, k - 1);
        if vals[k - 1] > m { vals[k - 1] } else { m }
    }
}

/// Sum of the first `k` values.
pub open spec fn sum_of(vals: Seq<int>, k: int) -> int
    decreases k,
{
    if k <= 0 { 0 } else { sum_of(vals, k - 1) + vals[k - 1] }
}

/// `max_of` bounds each value and stays within any common bound.
pub proof fn lemma_max_of(vals: Seq<int>, k: int, i: int, bound: int)
    requires
        0 <= i < k <= vals.len(),
        bound >= 0,
        forall|j: int| 0 <= j < k ==> 0 <= #[trigger] vals[j] <= bound,
    ensures
        vals[i] <= max_of(vals, k) <= bound,
        0 <= max_of(vals, k),
    decreases k,
{
    if k > 1 {
        lemma_max_of(vals, k - 1, if i < k - 1 { i } else { 0 }, bound);
    } else {
        assert(max_of(vals, 0) == 0);
    }
}

/// `sum_of` grows with `k` when the values are not negative.
pub proof fn lemma_sum_grows(vals: Seq<int>, j: int, k: int)
    requires
        0 <= j <= k <= vals.len(),
        forall|i: int| 0 <= i < k ==> 0 <= #[trigger] vals[i],
    ensures
        sum_of(vals, j) <= sum_of(vals, k),
        0 <= sum_of(vals, j),
    decreases k - j + k,
{
    if j < k {
        lemma_sum_grows(vals, j, k - 1);
    } else if j > 0 {
        lemma_sum_grows(vals, j - 1, j - 1);
    }
}

/// Offset of item `k` in a chain of items of sizes `vals` with a gap of
/// `gap` after each: the sizes before it plus one gap per item before it.
pub open spec fn chain_offset(vals: Seq<int>, gap: int, k: int) -> int
    decreases k,
{
    if k <= 0 { 0 } else { chain_offset(vals, gap, k - 1) + vals[k - 1] + gap }
}

/// Length of a chain: all sizes plus one gap between each two items.
pub open spec fn chain_length(vals: Seq<int>, gap: int) -> int {
    sum_of(vals, vals.len() as int) + (vals.len() - 1) * gap
}

/// `chain_offset` is the sum of the sizes before `k` plus `k` gaps.
pub proof fn lemma_chain_offset(vals: Seq<int>, gap: int, k: int)
    requires
        0 <= k,
    ensures
        chain_offset(vals, gap, k) == sum_of(vals, k) + k * gap,
    decreases k,
{
    if k > 0 {
        lemma_chain_offset(vals, gap, k - 1);
        assert((k - 1) * gap + gap == k * gap) by (nonlinear_arith);
        assert(sum_of(vals, k) == sum_of(vals, k - 1) + vals[k - 1]);
    } else {
        assert(0 * gap == 0);
    }
}

/// Offsets do not decrease along the chain.
pub proof fn lemma_chain_offset_grows(vals: Seq<int>, gap: int, j: int, k: int)
    requires
        0 <= j <= k <= vals.len(),
        gap >= 0,
        forall|i: int| 0 <= i < vals.len() ==> 0 <= #[trigger] vals[i],
    ensures
        chain_offset(vals, gap, j) <= chain_offset(vals, gap, k),
        0 <= chain_offset(vals, gap, j),
    decreases k - j + k,
{
    if j < k {
        lemma_chain_offset_grows(vals, gap, j, k - 1);
    } else if j > 0 {
        lemma_chain_offset_grows(vals, gap, j - 1, j - 1);
    }
}

/// The full offset is the chain's length plus one gap.
pub proof fn lemma_chain_end(vals: Seq<int>, gap: int)
    requires
        vals.len() >= 1,
    ensures
        chain_offset(vals, gap, vals.len() as int) == chain_length(vals, gap) + gap,
{
    let n = vals.len() as int;
    lemma_chain_offset(vals, gap, n);
    assert(n * gap == (n - 1) * gap + gap) by (nonlinear_arith);
}

/// Length of the chain of segment widths (`across`) or heights with a gap
/// of `gap` between each two.
pub fn chain_extent(parsed: &Vec<ParsedSegment>, across: bool, gap: usize) -> (total: usize)
    requires
        parsed@.len() >= 1,
        forall|i: int| 0 <= i < parsed@.len() ==> (#[trigger] parsed@[i]).width <= dim_limit() && parsed@[i].height <= dim_limit(),
        chain_length(if across { widths(parsed@) } else { heights(parsed@) }, gap as int) <= dim_limit(),
    ensures
        total == chain_length(if across { widths(parsed@) } else { heights(parsed@) }, gap as int),
{
    let ghost vals = if across { widths(parsed@) } else { heights(parsed@) };
    let n = parsed.len();
    proof {
        lemma_chain_end(vals, gap as int);
        assert forall|i: int| 0 <= i < n implies 0 <= #[trigger] vals[i] <= dim_limit() by {}
    }
    let mut total: usize = 0;
    let mut i: usize = 0;
    while i < n
        invariant
            n == parsed@.len(),
            n >= 1,
            i <= n,
            vals == (if across { widths(parsed@) } else { heights(parsed@) }),
            forall|j: int| 0 <= j < n ==> 0 <= #[trigger] vals[j] <= dim_limit(),
            chain_length(vals, gap as int) <= dim_limit(),
            chain_offset(vals, gap as int, n as int) == chain_length(vals, gap as int) + gap,
            total == (if i == 0 { 0 } else { chain_offset(vals, gap as int, i as int) - gap }),
        decreases n - i,
    {
        proof { lemma_chain_offset_grows(vals, gap as int, i + 1, n as int); }
        if i > 0 {
            total = total + gap;
        }
        total = total + if across { parsed[i].width } else { parsed[i].height };
        i = i + 1;
    }
    total
}

/// The tallest segment's height.
pub fn max_segment_height(parsed: &Vec<ParsedSegment>) -> (m: usize)
    ensures
        m == max_of(heights(parsed@), parsed@.len() as int),
{
    let n = parsed.len();
    let mut m: usize = 0;
    let mut i: usize = 0;
    while i < n
        invariant
            n == parsed@.len(),
            i <= n,
            m == max_of(heights(parsed@), i as int),
        decreases n - i,
    {
        if parsed[i].height > m {
            m = parsed[i].height;
        }
        i = i + 1;
    }
    m
}

/// The widest segment's width.
pub fn max_segment_width(parsed: &Vec<ParsedSegment>) -> (m: usize)
    ensures
        m == max_of(widths(parsed@), parsed@.len() as int),
{
    let n = parsed.len();
    let mut m: usize = 0;
    let mut i: usize = 0;
    while i < n
        invariant
            n == parsed@.len(),
            i <= n,
            m == max_of(widths(parsed@), i as int),
        decreases n - i,
    {
        if parsed[i].width > m {
            m = parsed[i].width;
        }
        i = i + 1;
    }
    m
}

/// The names match the segments' names.
pub open spec fn names_match(names: Seq<String>, segs: Seq<ParsedSegment>) -> bool {
    &&& names.len() == segs.len()
    &&& forall|i: int| 0 <= i < segs.len() ==> #[trigger] names[i]@ == segs[i].name@
}

/// Every segment was prepared for linking.
pub open spec fn all_prepared(old_segs: Seq<ParsedSegment>, new_segs: Seq<ParsedSegment>) -> bool {
    &&& new_segs.len() == old_segs.len()
    &&& forall|i: int| 0 <= i < old_segs.len() ==> prepared(#[trigger] old_segs[i], new_segs[i], i, old_segs.len() as int)
}

/// `s` is a `w` by `h` tilemap written one row per line.
pub open spec fn level_text(s: Seq<char>, w: int, h: int) -> bool {
    exists|g: Seq<Seq<char>>| rectangular(g, w, h) && s == join_lines(g)
}

/// Preparing segments keeps their sizes and the layout's requirements.
pub proof fn lemma_prepared_keeps_dims(old_segs: Seq<ParsedSegment>, new_segs: Seq<ParsedSegment>, config: &SegmentLinkerConfig)
    requires
        all_prepared(old_segs, new_segs),
        layout_input_ok(old_segs, config),
    ensures
        widths(new_segs) == widths(old_segs),
        heights(new_segs) == heights(old_segs),
        layout_input_ok(new_segs, config),
{
    assert(widths(new_segs) =~= widths(old_segs));
    assert(heights(new_segs) =~= heights(old_segs));
    assert forall|i: int| 0 <= i < new_segs.len() implies #[trigger] new_segs[i].width == old_segs[i].width
        && new_segs[i].height == old_segs[i].height by {
        assert(prepared(old_segs[i], new_segs[i], i, old_segs.len() as int));
    }
    assert forall|i: int| 0 <= i < new_segs.len() implies seg_fits(#[trigger] new_segs[i]) by {
        let o = old_segs[i];
        let nw = new_segs[i];
        assert(prepared(o, nw, i, old_segs.len() as int));
        assert(seg_fits(o));
        assert(nw.tile_grid().len() == o.tile_grid().len());
        assert forall|r: int| 0 <= r < nw.tile_grid().len() implies #[trigger] nw.tile_grid()[r].len() <= dim_limit() by {
            assert(nw.tile_grid()[r].len() == o.tile_grid()[r].len());
        }
    }
}

/// Placements of every segment, in order, at bounded positions.
pub proof fn lemma_placements_ok(segs: Seq<ParsedSegment>, pls: Seq<SegmentPlacement>)
    requires
        pls.len() == segs.len(),
        forall|i: int| 0 <= i < segs.len() ==> seg_fits(#[trigger] segs[i]),
        forall|k: int| 0 <= k < pls.len() ==> {
            &&& (#[trigger] pls[k]).segment_idx == k
            &&& pls[k].x <= 4 * dim_limit()
            &&& pls[k].y <= 4 * dim_limit()
        },
    ensures
        placements_ok(segs, pls),
{
    assert forall|k: int| 0 <= k < pls.len() implies {
        let p = #[trigger] pls[k];
        &&& p.segment_idx < segs.len()
        &&& p.y + segs[p.segment_idx as int].tile_grid().len() <= usize::MAX
        &&& forall|r: int| 0 <= r < segs[p.segment_idx as int].tile_grid().len()
            ==> p.x + #[trigger] segs[p.segment_idx as int].tile_grid()[r].len() <= usize::MAX
    } by {
        assert(seg_fits(segs[k]));
    }
}

/// A punch into a bounded rectangular grid, near it, can be carried out.
pub proof fn lemma_rect_punch_ok(gr: Seq<Seq<char>>, w: int, h: int, x: int, y: int, dir: LinkDirection, corridor_height: int)
    requires
        rectangular(gr, w, h),
        0 <= w,
        0 <= x <= 8 * dim_limit(),
        0 <= y <= 8 * dim_limit(),
        0 <= corridor_height <= dim_limit(),
    ensures
        punch_ok(gr, x, y, dir, corridor_height),
{
    assert forall|r: int, c: int| 0 <= r < gr.len() && 0 <= c < first_width(gr) && #[trigger] punch_writes(x, y, dir, corridor_height, r, c)
        implies c < gr[r].len() by {
        assert(gr[0].len() == w);
    }
}

/// Carving a horizontal corridor in a bounded rectangular grid can be
/// carried out.
pub proof fn lemma_rect_carve_h_ok(gr: Seq<Seq<char>>, w: int, h: int, start_x: int, start_y: int, end_y: int, corridor_height: int, path: Seq<usize>)
    requires
        rectangular(gr, w, h),
        0 <= start_x <= 8 * dim_limit(),
        path.len() <= dim_limit(),
        0 <= start_y <= 8 * dim_limit(),
        0 <= end_y <= 8 * dim_limit(),
        0 <= corridor_height <= dim_limit(),
        forall|i: int| 0 <= i < path.len() ==> #[trigger] path[i] < usize::MAX,
    ensures
        carve_h_ok(gr, start_x, start_y, end_y, corridor_height, path),
{
    let wd = first_width(gr) as int;
    assert forall|r: int, c: int| 0 <= r < gr.len() && c < wd && start_x <= c < start_x + path.len()
        && #[trigger] hc_clears(path, start_x, start_y, end_y, corridor_height, r, c) implies c < gr[r].len() by {
        assert(gr[0].len() == w);
    }
    assert forall|i: int, r: int, c: int| 0 <= r < gr.len() && #[trigger] hc_platform(path, start_x, start_y, end_y, wd, i, r, c)
        implies c < gr[r].len() by {
        assert(gr[0].len() == w);
    }
}

/// Carving a vertical corridor in a bounded rectangular grid can be
/// carried out when the shaft matches the corridor's rows.
pub proof fn lemma_rect_carve_v_ok(gr: Seq<Seq<char>>, w: int, h: int, start_y: int, end_y: int, corridor_len: int, shaft: Seq<usize>)
    requires
        rectangular(gr, w, h),
        w > 0,
        0 <= start_y <= 8 * dim_limit(),
        0 <= end_y <= 8 * dim_limit(),
        0 <= corridor_len <= 8 * dim_limit(),
        shaft.len() == (if vc_span(start_y, end_y, corridor_len, h).1 > vc_span(start_y, end_y, corridor_len, h).0 {
            vc_span(start_y, end_y, corridor_len, h).1 - vc_span(start_y, end_y, corridor_len, h).0
        } else { 0 }),
        forall|k: int| 0 <= k < shaft.len() ==> #[trigger] shaft[k] <= 8 * dim_limit(),
    ensures
        carve_v_ok(gr, start_y, end_y, corridor_len, shaft),
{
    let span = vc_span(start_y, end_y, corridor_len, gr.len() as int);
    let wd = first_width(gr) as int;
    assert forall|r: int, c: int| 0 <= r < gr.len() && 0 <= c && #[trigger] vc_clears(shaft, span.0, span.1, wd, r, c)
        implies c < gr[r].len() by {
        assert(gr[0].len() == w);
    }
    assert forall|r: int, c: int| 0 <= r < gr.len() && 0 <= c && #[trigger] vc_platform(shaft, span.0, span.1, wd, r, c)
        implies c < gr[r].len() by {
        assert(gr[0].len() == w);
    }
}

/// Placing markers in a bounded rectangular grid can be carried out.
pub proof fn lemma_rect_markers_ok(gr: Seq<Seq<char>>, segs: Seq<ParsedSegment>, pls: Seq<SegmentPlacement>, w: int, h: int)
    requires
        rectangular(gr, w, h),
        segs.len() >= 1,
        pls.len() == segs.len(),
        forall|i: int| 0 <= i < segs.len() ==> seg_fits(#[trigger] segs[i]),
        forall|k: int| 0 <= k < pls.len() ==> (#[trigger] pls[k]).x <= 4 * dim_limit() && pls[k].y <= 4 * dim_limit(),
    ensures
        rows_cover_width(gr),
        marker_search_fits(&segs[0], &pls[0]),
        marker_search_fits(&segs[segs.len() - 1], &pls[segs.len() - 1]),
{
    assert(seg_fits(segs[0]));
    assert(seg_fits(segs[segs.len() - 1]));
    assert(pls[0].x <= 4 * dim_limit());
    assert(pls[segs.len() - 1].x <= 4 * dim_limit());
    if gr.len() > 0 {
        assert(gr[0].len() == w);
    }
}

/// Text made from a rectangular grid is a level text.
pub proof fn lemma_level_text(g: Seq<Seq<char>>, s: Seq<char>, w: int, h: int)
    requires
        rectangular(g, w, h),
        s == join_lines(g),
    ensures
        level_text(s, w, h),
{
}

} // verus!
