//! Carving passages between segments.

use vstd::prelude::*;
use crate::segment_linker::grid::{first_width, grid, same_shape, sat_sub, set_cell, write_cell};
use crate::segment_linker::segment::{tile_at, ParsedSegment};
use crate::segment_linker::types::LinkDirection;

verus! {

/// Writes `ch` into column `c` of rows `lo..hi` that exist.
fn fill_col(g: &mut Vec<Vec<char>>, c: usize, lo: usize, hi: usize, ch: char)
    requires
        forall|r: int| lo <= r < hi && r < old(g)@.len() ==> c < #[trigger] grid(old(g))[r].len(),
    ensures
        same_shape(grid(old(g)), grid(final(g))),
        forall|r: int, k: int| 0 <= r < grid(old(g)).len() && 0 <= k < grid(old(g))[r].len()
            ==> #[trigger] grid(final(g))[r][k] == if k == c && lo <= r < hi { ch } else { grid(old(g))[r][k] },
{
    let ghost g0 = grid(g);
    let h = g.len();
    let mut r = lo;
    while r < hi && r < h
        invariant
            h == g@.len(),
            h == g0.len(),
            g0 == grid(old(g)),
            lo <= r,
            r <= hi || r == lo,
            forall|rr: int| lo <= rr < hi && rr < h ==> c < #[trigger] g0[rr].len(),
            same_shape(g0, grid(g)),
            forall|rr: int, k: int| 0 <= rr < h && 0 <= k < g0[rr].len()
                ==> #[trigger] grid(g)[rr][k] == if k == c && lo <= rr < r { ch } else { g0[rr][k] },
        decreases h - r,
    {
        assert(c < grid(g)[r as int].len());
        write_cell(g, r, c, ch);
        r = r + 1;
    }
}

/// Writes `ch` into row `r` at columns `lo + i` for `i < n`, where the
/// column lies below `w`.
fn fill_row(g: &mut Vec<Vec<char>>, r: usize, lo: usize, n: usize, w: usize, ch: char)
    requires
        r < old(g)@.len(),
        n > 0 ==> lo + n - 1 <= usize::MAX,
        n > 0 && lo < w ==> (if lo + n < w { lo + n } else { w as int }) <= grid(old(g))[r as int].len(),
    ensures
        same_shape(grid(old(g)), grid(final(g))),
        forall|rr: int, k: int| 0 <= rr < grid(old(g)).len() && 0 <= k < grid(old(g))[rr].len()
            ==> #[trigger] grid(final(g))[rr][k] == if rr == r && lo <= k < lo + n && k < w { ch } else { grid(old(g))[rr][k] },
{
    let ghost g0 = grid(g);
    let h = g.len();
    let mut i: usize = 0;
    while i < n
        invariant
            h == g@.len(),
            h == g0.len(),
            g0 == grid(old(g)),
            r < h,
            i <= n,
            n > 0 ==> lo + n - 1 <= usize::MAX,
            n > 0 && lo < w ==> (if lo + n < w { lo + n } else { w as int }) <= g0[r as int].len(),
            same_shape(g0, grid(g)),
            forall|rr: int, kk: int| 0 <= rr < h && 0 <= kk < g0[rr].len()
                ==> #[trigger] grid(g)[rr][kk] == if rr == r && lo <= kk < lo + i && kk < w { ch } else { g0[rr][kk] },
        decreases n - i,
    {
        let k = lo + i;
        if k < w {
            assert(grid(g)[r as int] == g@[r as int]@);
            assert(k < g0[r as int].len());
            write_cell(g, r, k, ch);
        }
        i = i + 1;
    }
}

/// Rows cleared by a horizontal punch at row `y` with clearance `ca` above:
/// from `ca - 1` rows above `y` down to four rows below it.
pub open spec fn h_cleared(y: int, ca: int, r: int) -> bool {
    y + 1 - ca <= r <= y + 4
}

/// A tile of a column punched on the corridor side of a horizontal
/// link: cleared rows become empty, with a floor five rows below `y`.
pub open spec fn h_fwd_cell(v: char, r: int, y: int, ca: int) -> char {
    if h_cleared(y, ca, r) {
        ' '
    } else if r == y + 5 {
        '_'
    } else {
        v
    }
}

/// A tile of a column punched on the segment side of a horizontal link,
/// `d` columns deep: cleared rows become empty, with a platform right
/// below `y`, and every third column platforms two rows above and three
/// rows below `y`.
pub open spec fn h_back_cell(v: char, r: int, y: int, ca: int, d: int) -> char {
    if r == y + 1 {
        '_'
    } else if d % 3 == 0 && (r == sat_sub(y, 2) || r == y + 3) {
        '_'
    } else if h_cleared(y, ca, r) {
        ' '
    } else {
        v
    }
}

/// Punches one corridor-side column.
fn punch_fwd_column(g: &mut Vec<Vec<char>>, px: usize, y: usize, ca: usize)
    requires
        y + 5 <= usize::MAX,
        forall|r: int| sat_sub(y + 1, ca as int) <= r <= y + 5 && r < old(g)@.len()
            ==> px < #[trigger] grid(old(g))[r].len(),
    ensures
        same_shape(grid(old(g)), grid(final(g))),
        forall|r: int, k: int| 0 <= r < grid(old(g)).len() && 0 <= k < grid(old(g))[r].len()
            ==> #[trigger] grid(final(g))[r][k] == if k == px {
                h_fwd_cell(grid(old(g))[r][k], r, y as int, ca as int)
            } else {
                grid(old(g))[r][k]
            },
{
    let lo = if y + 1 >= ca { y + 1 - ca } else { 0 };
    fill_col(g, px, lo, y + 1, ' ');
    fill_col(g, px, y + 1, y + 5, ' ');
    let floor_y = y + 5;
    if floor_y < g.len() {
        assert(grid(g)[floor_y as int] == g@[floor_y as int]@);
        write_cell(g, floor_y, px, '_');
    }
}

/// Punches one segment-side column, `dx` columns away from the link.
fn punch_back_column(g: &mut Vec<Vec<char>>, px: usize, y: usize, ca: usize, dx: usize)
    requires
        y + 4 <= usize::MAX,
        ca >= 3,
        forall|r: int| sat_sub(y + 1, ca as int) <= r <= y + 4 && r < old(g)@.len()
            ==> px < #[trigger] grid(old(g))[r].len(),
    ensures
        same_shape(grid(old(g)), grid(final(g))),
        forall|r: int, k: int| 0 <= r < grid(old(g)).len() && 0 <= k < grid(old(g))[r].len()
            ==> #[trigger] grid(final(g))[r][k] == if k == px {
                h_back_cell(grid(old(g))[r][k], r, y as int, ca as int, dx as int)
            } else {
                grid(old(g))[r][k]
            },
{
    let ghost g0 = grid(g);
    let lo = if y + 1 >= ca { y + 1 - ca } else { 0 };
    fill_col(g, px, lo, y + 1, ' ');
    fill_col(g, px, y + 1, y + 4, ' ');
    let h = g.len();
    let last = y + 4;
    if last < h {
        assert(grid(g)[last as int] == g@[last as int]@);
        write_cell(g, last, px, ' ');
    }
    let floor_y = y + 1;
    if floor_y < h {
        assert(grid(g)[floor_y as int] == g@[floor_y as int]@);
        if g[floor_y][px] == ' ' {
            write_cell(g, floor_y, px, '_');
        }
    }
    if dx % 3 == 0 {
        let high = if y >= 2 { y - 2 } else { 0 };
        if high < h {
            assert(grid(g)[high as int] == g@[high as int]@);
            if g[high][px] == ' ' {
                write_cell(g, high, px, '_');
            }
        }
        let low = y + 3;
        if low < h {
            assert(grid(g)[low as int] == g@[low as int]@);
            if g[low][px] == ' ' {
                write_cell(g, low, px, '_');
            }
        }
    }
}

/// Corridor-side columns of a horizontal punch at column `x`: eight
/// columns starting at `x`, in the link's direction.
pub open spec fn h_fwd_col(dir: LinkDirection, x: int, c: int) -> bool {
    match dir {
        LinkDirection::Right => x <= c <= x + 7,
        _ => x - 7 <= c <= x,
    }
}

/// How deep (1 to 10) the last segment-side visit of column `c` was in a
/// horizontal punch at column `x`, or 0 when the column is not visited.
/// Punching right from near the left edge visits column 0 repeatedly.
pub open spec fn h_back_depth(dir: LinkDirection, x: int, c: int) -> int {
    match dir {
        LinkDirection::Right => if c == 0 && x <= 10 {
            10
        } else if x - 10 <= c <= x - 1 {
            x - c
        } else {
            0
        },
        _ => if x + 1 <= c <= x + 10 { c - x } else { 0 },
    }
}

/// Rows cleared by a vertical punch at row `y`: eight rows into the
/// corridor and eight into the segment.
pub open spec fn v_rows(dir: LinkDirection, y: int, r: int) -> bool {
    match dir {
        LinkDirection::Down => y - 8 <= r <= y + 7,
        _ => y - 7 <= r <= y + 8,
    }
}

/// First column cleared by a vertical punch at column `x`.
pub open spec fn v_first_col(x: int, corridor_height: int) -> int {
    sat_sub(x, (corridor_height + 4) / 2)
}

/// Columns cleared by a vertical punch: `corridor_height + 4` columns
/// roughly centred on `x`.
pub open spec fn v_cols(x: int, corridor_height: int, c: int) -> bool {
    v_first_col(x, corridor_height) <= c < v_first_col(x, corridor_height) + corridor_height + 4
}

/// Whether the link runs left or right.
pub open spec fn is_horizontal(dir: LinkDirection) -> bool {
    dir == LinkDirection::Left || dir == LinkDirection::Right
}

/// The tile at row `r`, column `c` after punching through the wall at
/// `(x, y)`; `w` is the grid width (the first row's length).
pub open spec fn punch_cell(v: char, r: int, c: int, x: int, y: int, dir: LinkDirection, corridor_height: int, w: int) -> char {
    if c >= w {
        v
    } else if is_horizontal(dir) {
        let ca = corridor_height + 8;
        let f = if h_fwd_col(dir, x, c) { h_fwd_cell(v, r, y, ca) } else { v };
        let d = h_back_depth(dir, x, c);
        if d > 0 { h_back_cell(f, r, y, ca, d) } else { f }
    } else if v_rows(dir, y, r) && v_cols(x, corridor_height, c) {
        ' '
    } else {
        v
    }
}

/// The grid after punching through the wall at `(x, y)`.
pub open spec fn punched(gr: Seq<Seq<char>>, x: int, y: int, dir: LinkDirection, corridor_height: int) -> Seq<Seq<char>> {
    Seq::new(gr.len(), |r: int| Seq::new(gr[r].len(), |c: int|
        punch_cell(gr[r][c], r, c, x, y, dir, corridor_height, first_width(gr) as int)))
}

/// The punch writes the cell at row `r`, column `c` (given `c < w`).
pub open spec fn punch_writes(x: int, y: int, dir: LinkDirection, corridor_height: int, r: int, c: int) -> bool {
    if is_horizontal(dir) {
        let lo = sat_sub(y + 1, corridor_height + 8);
        ||| h_fwd_col(dir, x, c) && lo <= r <= y + 5
        ||| h_back_depth(dir, x, c) > 0 && lo <= r <= y + 4
    } else {
        v_rows(dir, y, r) && v_cols(x, corridor_height, c)
    }
}

/// Some corridor-side column of a horizontal punch lies in the grid.
pub open spec fn h_any_fwd(dir: LinkDirection, x: int, w: int) -> bool {
    match dir {
        LinkDirection::Right => x < w,
        _ => w > 0 && x - 7 < w,
    }
}

/// Some segment-side column of a horizontal punch lies in the grid.
pub open spec fn h_any_back(dir: LinkDirection, x: int, w: int) -> bool {
    match dir {
        LinkDirection::Right => w > 0 && x - 10 < w,
        _ => x + 1 < w,
    }
}

/// Some row of a vertical punch lies in the grid.
pub open spec fn v_any_row(dir: LinkDirection, y: int, h: int) -> bool {
    match dir {
        LinkDirection::Down => h > 0 && y - 8 < h,
        _ => h > 0 && y - 7 < h,
    }
}

/// The punch can be carried out: every cell it writes exists, and no
/// row or column index it computes overflows.
pub open spec fn punch_ok(gr: Seq<Seq<char>>, x: int, y: int, dir: LinkDirection, corridor_height: int) -> bool {
    let w = first_width(gr) as int;
    &&& corridor_height + 8 <= usize::MAX
    &&& forall|r: int, c: int| 0 <= r < gr.len() && 0 <= c < w && #[trigger] punch_writes(x, y, dir, corridor_height, r, c)
        ==> c < gr[r].len()
    &&& is_horizontal(dir) && h_any_fwd(dir, x, w) ==> y + 5 <= usize::MAX
    &&& is_horizontal(dir) && h_any_back(dir, x, w) ==> y + 4 <= usize::MAX
    &&& !is_horizontal(dir) && v_any_row(dir, y, gr.len() as int)
        ==> v_first_col(x, corridor_height) + corridor_height + 3 <= usize::MAX
}

/// Punches through a wall at `(x, y)` to open a passage in direction
/// `direction`, clearing both into the corridor and into the segment.
///
/// Horizontal links clear `corridor_height + 8` rows up to `y` and four
/// rows below it over eight corridor-side columns (with a floor five rows
/// below `y`) and ten segment-side columns (with platforms). Vertical
/// links clear eight rows on each side over `corridor_height + 4`
/// columns around `x`.
pub fn punch_through_wall(tilemap: &mut Vec<Vec<char>>, x: usize, y: usize, direction: LinkDirection, corridor_height: usize)
    requires
        punch_ok(grid(old(tilemap)), x as int, y as int, direction, corridor_height as int),
    ensures
        grid(final(tilemap)) == punched(grid(old(tilemap)), x as int, y as int, direction, corridor_height as int),
        same_shape(grid(old(tilemap)), grid(final(tilemap))),
{
    let ghost g0 = grid(tilemap);
    let h = tilemap.len();
    let w = if h > 0 { tilemap[0].len() } else { 0 };
    assert(w == first_width(g0));
    let ca = corridor_height + 8;
    match direction {
        LinkDirection::Left | LinkDirection::Right => {
            let right = match direction { LinkDirection::Right => true, _ => false };
            let mut dx: usize = 0;
            while dx < 8
                invariant
                    g0 == grid(old(tilemap)),
                    h == g0.len(),
                    w == first_width(g0),
                    ca == corridor_height + 8,
                    is_horizontal(direction),
                    right == (direction == LinkDirection::Right),
                    punch_ok(g0, x as int, y as int, direction, corridor_height as int),
                    dx <= 8,
                    same_shape(g0, grid(tilemap)),
                    forall|r: int, c: int| 0 <= r < h && 0 <= c < g0[r].len()
                        ==> #[trigger] grid(tilemap)[r][c] == if c < w && (if right { x <= c < x + dx } else { x - dx < c <= x }) {
                            h_fwd_cell(g0[r][c], r, y as int, ca as int)
                        } else {
                            g0[r][c]
                        },
                decreases 8 - dx,
            {
                let px = if right { x.saturating_add(dx) } else { x.saturating_sub(dx) };
                if px < w {
                    assert(h_any_fwd(direction, x as int, w as int));
                    assert forall|r: int| sat_sub(y + 1, ca as int) <= r <= y + 5 && r < tilemap@.len()
                        implies px < #[trigger] grid(tilemap)[r].len() by {
                        assert(punch_writes(x as int, y as int, direction, corridor_height as int, r, px as int));
                    }
                    punch_fwd_column(tilemap, px, y, ca);
                }
                dx = dx + 1;
            }
            let ghost g1 = grid(tilemap);
            let mut dx: usize = 1;
            while dx <= 10
                invariant
                    g0 == grid(old(tilemap)),
                    h == g0.len(),
                    w == first_width(g0),
                    ca == corridor_height + 8,
                    is_horizontal(direction),
                    right == (direction == LinkDirection::Right),
                    punch_ok(g0, x as int, y as int, direction, corridor_height as int),
                    1 <= dx <= 11,
                    same_shape(g0, g1),
                    forall|r: int, c: int| 0 <= r < h && 0 <= c < g0[r].len()
                        ==> #[trigger] g1[r][c] == if c < w && h_fwd_col(direction, x as int, c) {
                            h_fwd_cell(g0[r][c], r, y as int, ca as int)
                        } else {
                            g0[r][c]
                        },
                    same_shape(g0, grid(tilemap)),
                    forall|r: int, c: int| 0 <= r < h && 0 <= c < g0[r].len()
                        ==> #[trigger] grid(tilemap)[r][c] == {
                            let d = if right {
                                if c == 0 && x < dx { dx - 1 } else if x - (dx - 1) <= c <= x - 1 { x - c } else { 0 }
                            } else {
                                if x + 1 <= c <= x + (dx - 1) { c - x } else { 0 }
                            };
                            if c < w && d > 0 { h_back_cell(g1[r][c], r, y as int, ca as int, d) } else { g1[r][c] }
                        },
                decreases 11 - dx,
            {
                let px = if right { x.saturating_sub(dx) } else { x.saturating_add(dx) };
                if px < w {
                    assert(h_any_back(direction, x as int, w as int));
                    assert forall|r: int| sat_sub(y + 1, ca as int) <= r <= y + 4 && r < tilemap@.len()
                        implies px < #[trigger] grid(tilemap)[r].len() by {
                        assert(punch_writes(x as int, y as int, direction, corridor_height as int, r, px as int));
                    }
                    punch_back_column(tilemap, px, y, ca, dx);
                }
                dx = dx + 1;
            }
            assert forall|r: int| 0 <= r < h implies #[trigger] grid(tilemap)[r]
                =~= punched(g0, x as int, y as int, direction, corridor_height as int)[r] by {}
            assert(grid(tilemap) =~= punched(g0, x as int, y as int, direction, corridor_height as int));
        },
        LinkDirection::Up | LinkDirection::Down => {
            let down = match direction { LinkDirection::Down => true, _ => false };
            let clearance = corridor_height + 4;
            let first_col = x.saturating_sub(clearance / 2);
            let mut dy: usize = 0;
            while dy < 8
                invariant
                    g0 == grid(old(tilemap)),
                    h == g0.len(),
                    w == first_width(g0),
                    clearance == corridor_height + 4,
                    first_col == v_first_col(x as int, corridor_height as int),
                    !is_horizontal(direction),
                    down == (direction == LinkDirection::Down),
                    punch_ok(g0, x as int, y as int, direction, corridor_height as int),
                    dy <= 8,
                    same_shape(g0, grid(tilemap)),
                    forall|r: int, c: int| 0 <= r < h && 0 <= c < g0[r].len()
                        ==> #[trigger] grid(tilemap)[r][c] == if c < w && v_cols(x as int, corridor_height as int, c)
                            && (if down { y <= r < y + dy } else { y - dy < r <= y }) {
                            ' '
                        } else {
                            g0[r][c]
                        },
                decreases 8 - dy,
            {
                let py = if down { y.saturating_add(dy) } else { y.saturating_sub(dy) };
                if py < h {
                    assert(v_any_row(direction, y as int, h as int));
                    proof {
                        if first_col < w {
                            let last = if first_col + clearance < w { first_col + clearance - 1 } else { w - 1 };
                            assert(punch_writes(x as int, y as int, direction, corridor_height as int, py as int, last as int));
                        }
                    }
                    fill_row(tilemap, py, first_col, clearance, w, ' ');
                }
                dy = dy + 1;
            }
            let mut dy: usize = 1;
            while dy <= 8
                invariant
                    g0 == grid(old(tilemap)),
                    h == g0.len(),
                    w == first_width(g0),
                    clearance == corridor_height + 4,
                    first_col == v_first_col(x as int, corridor_height as int),
                    !is_horizontal(direction),
                    down == (direction == LinkDirection::Down),
                    punch_ok(g0, x as int, y as int, direction, corridor_height as int),
                    1 <= dy <= 9,
                    same_shape(g0, grid(tilemap)),
                    forall|r: int, c: int| 0 <= r < h && 0 <= c < g0[r].len()
                        ==> #[trigger] grid(tilemap)[r][c] == if c < w && v_cols(x as int, corridor_height as int, c)
                            && (if down { y - (dy - 1) <= r <= y + 7 } else { y - 7 <= r <= y + (dy - 1) }) {
                            ' '
                        } else {
                            g0[r][c]
                        },
                decreases 9 - dy,
            {
                let py = if down { y.saturating_sub(dy) } else { y.saturating_add(dy) };
                if py < h {
                    assert(v_any_row(direction, y as int, h as int));
                    proof {
                        if first_col < w {
                            let last = if first_col + clearance < w { first_col + clearance - 1 } else { w - 1 };
                            assert(punch_writes(x as int, y as int, direction, corridor_height as int, py as int, last as int));
                        }
                    }
                    fill_row(tilemap, py, first_col, clearance, w, ' ');
                }
                dy = dy + 1;
            }
            assert forall|r: int| 0 <= r < h implies #[trigger] grid(tilemap)[r]
                =~= punched(g0, x as int, y as int, direction, corridor_height as int)[r] by {}
            assert(grid(tilemap) =~= punched(g0, x as int, y as int, direction, corridor_height as int));
        },
    }
}

/// A tile a vertical corridor may pass through: empty space or a marker.
pub open spec fn is_passable(t: char) -> bool {
    t == ' ' || t == 'P' || t == '>'
}

/// `(a0, a1)` comes before `(b0, b1)` in lexicographic order.
pub open spec fn lex_before(a0: int, a1: int, b0: int, b1: int) -> bool {
    a0 < b0 || (a0 == b0 && a1 < b1)
}

/// Candidate for a vertical corridor column near the bottom (`bottom`) or
/// top of a segment: search step `ro` (1 to 4) picks the row, `x` the
/// column in the middle third, which must stay below `max_width` once
/// offset and be passable.
pub open spec fn vcol_candidate(seg: &ParsedSegment, bottom: bool, x_offset: int, max_width: int, ro: int, x: int) -> bool {
    let row = if bottom { seg.height - ro } else { ro };
    &&& 1 <= ro <= 4
    &&& if bottom { seg.height > ro } else { ro < seg.height }
    &&& seg.width / 3 <= x < seg.width * 2 / 3
    &&& x_offset + x < max_width
    &&& is_passable(tile_at(seg.tile_grid(), x, row))
}

/// The column chosen for a vertical corridor: the first candidate in
/// search order (rows first, then columns left to right), offset by
/// `x_offset`; without one, the middle column.
pub open spec fn vcol_result(seg: &ParsedSegment, bottom: bool, x_offset: int, max_width: int, res: int) -> bool {
    if exists|ro: int, x: int| #[trigger] vcol_candidate(seg, bottom, x_offset, max_width, ro, x) {
        exists|ro: int, x: int| {
            &&& #[trigger] vcol_candidate(seg, bottom, x_offset, max_width, ro, x)
            &&& res == x_offset + x
            &&& forall|ro2: int, x2: int| #[trigger] vcol_candidate(seg, bottom, x_offset, max_width, ro2, x2)
                ==> !lex_before(ro2, x2, ro, x)
        }
    } else {
        res == x_offset + seg.width / 2
    }
}

/// Exactly one column meets `vcol_result`.
pub proof fn lemma_vcol_unique(seg: &ParsedSegment, bottom: bool, x_offset: int, max_width: int, r1: int, r2: int)
    requires
        vcol_result(seg, bottom, x_offset, max_width, r1),
        vcol_result(seg, bottom, x_offset, max_width, r2),
    ensures
        r1 == r2,
{
    if exists|ro: int, x: int| #[trigger] vcol_candidate(seg, bottom, x_offset, max_width, ro, x) {
        let (ro1, x1) = choose|ro: int, x: int| {
            &&& #[trigger] vcol_candidate(seg, bottom, x_offset, max_width, ro, x)
            &&& r1 == x_offset + x
            &&& forall|ro2: int, x2: int| #[trigger] vcol_candidate(seg, bottom, x_offset, max_width, ro2, x2)
                ==> !lex_before(ro2, x2, ro, x)
        };
        let (ro2, x2) = choose|ro: int, x: int| {
            &&& #[trigger] vcol_candidate(seg, bottom, x_offset, max_width, ro, x)
            &&& r2 == x_offset + x
            &&& forall|ro3: int, x3: int| #[trigger] vcol_candidate(seg, bottom, x_offset, max_width, ro3, x3)
                ==> !lex_before(ro3, x3, ro, x)
        };
        assert(!lex_before(ro2, x2, ro1, x1));
        assert(!lex_before(ro1, x1, ro2, x2));
    }
}

/// Searches for a vertical corridor column; shared by the exit (bottom)
/// and entry (top) searches.
fn find_vertical_col(seg: &ParsedSegment, bottom: bool, x_offset: usize, max_width: usize) -> (res: usize)
    requires
        seg.height > 1 ==> seg.width * 2 <= usize::MAX,
        x_offset + seg.width <= usize::MAX,
    ensures
        vcol_result(seg, bottom, x_offset as int, max_width as int, res as int),
        res <= x_offset + seg.width,
{
    let mut ro: usize = 1;
    while ro < 5
        invariant
            1 <= ro <= 5,
            seg.height > 1 ==> seg.width * 2 <= usize::MAX,
            x_offset + seg.width <= usize::MAX,
            forall|ro2: int, x2: int| #[trigger] vcol_candidate(seg, bottom, x_offset as int, max_width as int, ro2, x2)
                ==> ro2 >= ro,
        ensures
            forall|ro2: int, x2: int| !#[trigger] vcol_candidate(seg, bottom, x_offset as int, max_width as int, ro2, x2),
        decreases 5 - ro,
    {
        let row = if bottom { seg.height.saturating_sub(ro) } else { ro };
        if bottom {
            if row == 0 {
                break;
            }
        } else {
            if ro >= seg.height {
                break;
            }
        }
        let lo = seg.width / 3;
        let hi = seg.width * 2 / 3;
        let mut x = lo;
        while x < hi
            invariant
                1 <= ro < 5,
                lo == seg.width / 3,
                hi == seg.width * 2 / 3,
                lo <= x,
                row == if bottom { seg.height - ro } else { ro as int },
                if bottom { seg.height > ro } else { ro < seg.height },
                x_offset + seg.width <= usize::MAX,
                forall|ro2: int, x2: int| #[trigger] vcol_candidate(seg, bottom, x_offset as int, max_width as int, ro2, x2)
                    ==> ro2 >= ro && (ro2 == ro ==> x2 >= x),
            decreases hi - x,
        {
            let global_x = x_offset + x;
            if global_x < max_width {
                let tile = seg.get_tile(x, row);
                if tile == ' ' || tile == 'P' || tile == '>' {
                    assert(vcol_candidate(seg, bottom, x_offset as int, max_width as int, ro as int, x as int));
                    return global_x;
                }
            }
            assert(!vcol_candidate(seg, bottom, x_offset as int, max_width as int, ro as int, x as int));
            x = x + 1;
        }
        ro = ro + 1;
    }
    assert(!exists|ro2: int, x2: int| #[trigger] vcol_candidate(seg, bottom, x_offset as int, max_width as int, ro2, x2));
    x_offset + seg.width / 2
}

/// Column for a vertical corridor leaving the bottom of a segment: the
/// first passable tile in the middle third of the four rows above the
/// bottom edge (lowest row first, then left to right), offset by
/// `x_offset` and kept below `max_width`; else the middle column.
pub fn find_vertical_exit_col(seg: &ParsedSegment, x_offset: usize, max_width: usize) -> (res: usize)
    requires
        seg.height > 1 ==> seg.width * 2 <= usize::MAX,
        x_offset + seg.width <= usize::MAX,
    ensures
        vcol_result(seg, true, x_offset as int, max_width as int, res as int),
        res <= x_offset + seg.width,
{
    find_vertical_col(seg, true, x_offset, max_width)
}

/// Column for a vertical corridor entering the top of a segment: the first
/// passable tile in the middle third of rows 1 to 4 (top first, then left
/// to right), offset by `x_offset` and kept below `max_width`; else the
/// middle column.
pub fn find_vertical_entry_col(seg: &ParsedSegment, x_offset: usize, max_width: usize) -> (res: usize)
    requires
        seg.height > 1 ==> seg.width * 2 <= usize::MAX,
        x_offset + seg.width <= usize::MAX,
    ensures
        vcol_result(seg, false, x_offset as int, max_width as int, res as int),
        res <= x_offset + seg.width,
{
    find_vertical_col(seg, false, x_offset, max_width)
}

/// Row probed at search step `off` in direction `dir` (0: down, 1: up)
/// from the middle row `mid`.
pub open spec fn probe_row(mid: int, off: int, dir: int) -> int {
    if dir == 0 { mid + off } else { mid - off }
}

/// `(a0, a1, a2)` comes before `(b0, b1, b2)` in lexicographic order.
pub open spec fn lex3_before(a0: int, a1: int, a2: int, b0: int, b1: int, b2: int) -> bool {
    a0 < b0 || (a0 == b0 && (a1 < b1 || (a1 == b1 && a2 < b2)))
}

/// Candidate for a horizontal corridor row at the right (`right`) or left
/// edge of a segment: step `c` picks the column (`c` in from the right
/// edge, or column `c`, searched from `search_min` resp. `search_min - 1`
/// up to half the width), `off` and `dir` the row around the middle within
/// 30% of the height; the row, once offset, stays below `max_height` and
/// its tile is empty space.
pub open spec fn hrow_candidate(seg: &ParsedSegment, right: bool, y_offset: int, max_height: int, search_min: int, c: int, off: int, dir: int) -> bool {
    let col = if right { seg.width - c } else { c };
    let y = probe_row((seg.height / 2) as int, off, dir);
    &&& (if right { search_min <= c } else { search_min - 1 <= c })
    &&& c < seg.width / 2
    &&& 0 <= off < seg.height * 3 / 10
    &&& 0 <= dir < 2
    &&& 0 <= y < seg.height
    &&& y_offset + y < max_height
    &&& tile_at(seg.tile_grid(), col, y) == ' '
}

/// The row chosen for a horizontal corridor: the first candidate in search
/// order (columns inward, then distance from the middle, down before up),
/// offset by `y_offset`; without one, the middle row.
pub open spec fn hrow_result(seg: &ParsedSegment, right: bool, y_offset: int, max_height: int, search_min: int, res: int) -> bool {
    if exists|c: int, off: int, dir: int| #[trigger] hrow_candidate(seg, right, y_offset, max_height, search_min, c, off, dir) {
        exists|c: int, off: int, dir: int| {
            &&& #[trigger] hrow_candidate(seg, right, y_offset, max_height, search_min, c, off, dir)
            &&& res == y_offset + probe_row((seg.height / 2) as int, off, dir)
            &&& forall|c2: int, off2: int, dir2: int| #[trigger] hrow_candidate(seg, right, y_offset, max_height, search_min, c2, off2, dir2)
                ==> !lex3_before(c2, off2, dir2, c, off, dir)
        }
    } else {
        res == y_offset + seg.height / 2
    }
}

/// Exactly one row meets `hrow_result`.
pub proof fn lemma_hrow_unique(seg: &ParsedSegment, right: bool, y_offset: int, max_height: int, search_min: int, r1: int, r2: int)
    requires
        hrow_result(seg, right, y_offset, max_height, search_min, r1),
        hrow_result(seg, right, y_offset, max_height, search_min, r2),
    ensures
        r1 == r2,
{
    if exists|c: int, off: int, dir: int| #[trigger] hrow_candidate(seg, right, y_offset, max_height, search_min, c, off, dir) {
        let (c1, o1, d1) = choose|c: int, off: int, dir: int| {
            &&& #[trigger] hrow_candidate(seg, right, y_offset, max_height, search_min, c, off, dir)
            &&& r1 == y_offset + probe_row((seg.height / 2) as int, off, dir)
            &&& forall|c2: int, off2: int, dir2: int| #[trigger] hrow_candidate(seg, right, y_offset, max_height, search_min, c2, off2, dir2)
                ==> !lex3_before(c2, off2, dir2, c, off, dir)
        };
        let (c2, o2, d2) = choose|c: int, off: int, dir: int| {
            &&& #[trigger] hrow_candidate(seg, right, y_offset, max_height, search_min, c, off, dir)
            &&& r2 == y_offset + probe_row((seg.height / 2) as int, off, dir)
            &&& forall|c3: int, off3: int, dir3: int| #[trigger] hrow_candidate(seg, right, y_offset, max_height, search_min, c3, off3, dir3)
                ==> !lex3_before(c3, off3, dir3, c, off, dir)
        };
        assert(!lex3_before(c2, o2, d2, c1, o1, d1));
        assert(!lex3_before(c1, o1, d1, c2, o2, d2));
    }
}

/// Searches for a horizontal corridor row; shared by the exit (right edge)
/// and entry (left edge) searches.
fn find_horizontal_row(seg: &ParsedSegment, right: bool, y_offset: usize, max_height: usize, search_min: usize) -> (res: usize)
    requires
        seg.height <= i32::MAX,
        seg.height * 3 <= usize::MAX,
        y_offset + seg.height <= usize::MAX,
        !right ==> search_min >= 1,
    ensures
        hrow_result(seg, right, y_offset as int, max_height as int, search_min as int, res as int),
        res <= y_offset + seg.height,
{
    let mid_y = seg.height / 2;
    let max_col_search = seg.width / 2;
    let search_range = seg.height * 3 / 10;
    let mut c: usize = if right { search_min } else { search_min - 1 };
    while c < max_col_search
        invariant
            mid_y == seg.height / 2,
            max_col_search == seg.width / 2,
            search_range == seg.height * 3 / 10,
            seg.height <= i32::MAX,
            y_offset + seg.height <= usize::MAX,
            if right { search_min <= c } else { search_min - 1 <= c },
            forall|c2: int, off2: int, dir2: int| #[trigger] hrow_candidate(seg, right, y_offset as int, max_height as int, search_min as int, c2, off2, dir2)
                ==> c2 >= c,
        ensures
            forall|c2: int, off2: int, dir2: int| !#[trigger] hrow_candidate(seg, right, y_offset as int, max_height as int, search_min as int, c2, off2, dir2),
        decreases max_col_search - c,
    {
        let col = if right { seg.width.saturating_sub(c) } else { c };
        if right {
            if col == 0 {
                break;
            }
        } else {
            if col >= seg.width {
                break;
            }
        }
        let mut off: usize = 0;
        while off < search_range
            invariant
                mid_y == seg.height / 2,
                search_range == seg.height * 3 / 10,
                seg.height <= i32::MAX,
                y_offset + seg.height <= usize::MAX,
                c < max_col_search,
                max_col_search == seg.width / 2,
                col == if right { seg.width - c } else { c as int },
                if right { search_min <= c } else { search_min - 1 <= c },
                forall|c2: int, off2: int, dir2: int| #[trigger] hrow_candidate(seg, right, y_offset as int, max_height as int, search_min as int, c2, off2, dir2)
                    ==> c2 >= c && (c2 == c ==> off2 >= off),
            decreases search_range - off,
        {
            let mut d: usize = 0;
            while d < 2
                invariant
                    mid_y == seg.height / 2,
                    search_range == seg.height * 3 / 10,
                    seg.height <= i32::MAX,
                    y_offset + seg.height <= usize::MAX,
                    off < search_range,
                    c < max_col_search,
                    max_col_search == seg.width / 2,
                    col == if right { seg.width - c } else { c as int },
                    if right { search_min <= c } else { search_min - 1 <= c },
                    d <= 2,
                    forall|c2: int, off2: int, dir2: int| #[trigger] hrow_candidate(seg, right, y_offset as int, max_height as int, search_min as int, c2, off2, dir2)
                        ==> c2 >= c && (c2 == c ==> (off2 >= off && (off2 == off ==> dir2 >= d))),
                decreases 2 - d,
            {
                let direction: i32 = if d == 0 { 1 } else { -1 };
                let y_signed: i32 = mid_y as i32 + (off as i32 * direction);
                if y_signed >= 0 {
                    let y = y_signed as usize;
                    if y < seg.height {
                        let global_y = y_offset + y;
                        if global_y < max_height {
                            let tile = seg.get_tile(col, y);
                            if tile == ' ' {
                                assert(hrow_candidate(seg, right, y_offset as int, max_height as int, search_min as int, c as int, off as int, d as int));
                                return global_y;
                            }
                        }
                    }
                }
                assert(!hrow_candidate(seg, right, y_offset as int, max_height as int, search_min as int, c as int, off as int, d as int));
                d = d + 1;
            }
            off = off + 1;
        }
        c = c + 1;
    }
    y_offset + mid_y
}

/// Row for a corridor leaving the right edge of a segment: searching
/// columns from `search_min` in from the right edge up to half the width,
/// and rows outward from the middle within 30% of the height, the first
/// empty tile whose row stays below `max_height` once offset by
/// `y_offset`; else the middle row.
pub fn find_exit_row(seg: &ParsedSegment, y_offset: usize, max_height: usize, search_min: usize) -> (res: usize)
    requires
        seg.height <= i32::MAX,
        seg.height * 3 <= usize::MAX,
        y_offset + seg.height <= usize::MAX,
    ensures
        hrow_result(seg, true, y_offset as int, max_height as int, search_min as int, res as int),
        res <= y_offset + seg.height,
{
    find_horizontal_row(seg, true, y_offset, max_height, search_min)
}

/// Row for a corridor entering the left edge of a segment: as
/// `find_exit_row`, searching columns from `search_min - 1` rightward.
pub fn find_entry_row(seg: &ParsedSegment, y_offset: usize, max_height: usize, search_min: usize) -> (res: usize)
    requires
        seg.height <= i32::MAX,
        seg.height * 3 <= usize::MAX,
        y_offset + seg.height <= usize::MAX,
        search_min >= 1,
    ensures
        hrow_result(seg, false, y_offset as int, max_height as int, search_min as int, res as int),
        res <= y_offset + seg.height,
{
    find_horizontal_row(seg, false, y_offset, max_height, search_min)
}

/// Writes empty space into column `c` of rows `lo..hi` that exist, except
/// over platforms (`_`).
fn clear_col_keeping_platforms(g: &mut Vec<Vec<char>>, c: usize, lo: usize, hi: usize)
    requires
        forall|r: int| lo <= r < hi && r < old(g)@.len() ==> c < #[trigger] grid(old(g))[r].len(),
    ensures
        same_shape(grid(old(g)), grid(final(g))),
        forall|r: int, k: int| 0 <= r < grid(old(g)).len() && 0 <= k < grid(old(g))[r].len()
            ==> #[trigger] grid(final(g))[r][k] == if k == c && lo <= r < hi && grid(old(g))[r][k] != '_' {
                ' '
            } else {
                grid(old(g))[r][k]
            },
{
    let ghost g0 = grid(g);
    let h = g.len();
    let mut r = lo;
    while r < hi && r < h
        invariant
            h == g@.len(),
            h == g0.len(),
            g0 == grid(old(g)),
            lo <= r,
            r <= hi || r == lo,
            forall|rr: int| lo <= rr < hi && rr < h ==> c < #[trigger] g0[rr].len(),
            same_shape(g0, grid(g)),
            forall|rr: int, k: int| 0 <= rr < h && 0 <= k < g0[rr].len()
                ==> #[trigger] grid(g)[rr][k] == if k == c && lo <= rr < r && g0[rr][k] != '_' { ' ' } else { g0[rr][k] },
        decreases h - r,
    {
        assert(grid(g)[r as int] == g@[r as int]@);
        assert(c < grid(g)[r as int].len());
        if g[r][c] != '_' {
            write_cell(g, r, c, ' ');
        }
        r = r + 1;
    }
}

/// A tile of a horizontal corridor column whose path row is `y`: rows
/// from `eff - 1` above `y` down to `y` become empty; rows from
/// `corridor_height` above the higher end down to just below `y` become
/// empty unless they hold a platform.
pub open spec fn hc_cell(v: char, r: int, y: int, min_y: int, corridor_height: int, eff: int) -> char {
    if y + 1 - eff <= r <= y {
        ' '
    } else if sat_sub(min_y, corridor_height) <= r <= y + 1 && v != '_' {
        ' '
    } else {
        v
    }
}

/// Step `i` of a horizontal corridor puts a platform at row `r`, column
/// `c`: every third column (from the second) a two-wide platform on the
/// path, or two rows above it on alternate ones; and where the ends differ
/// by more than five rows, every sixth column a tile at the middle height
/// (off the path).
pub open spec fn hc_platform(path: Seq<usize>, start_x: int, start_y: int, end_y: int, w: int, i: int, r: int, c: int) -> bool {
    let x = start_x + i;
    let y = path[i] as int;
    let lo = if start_y <= end_y { start_y } else { end_y };
    let hi = if start_y <= end_y { end_y } else { start_y };
    &&& 0 <= i < path.len()
    &&& x < w
    &&& {
        ||| i % 3 == 1 && r == (if (i / 3) % 2 == 0 { y } else { sat_sub(y, 2) })
            && (c == x || (c == x + 1 && x + 1 < w))
        ||| hi - lo > 5 && i % 6 == 0 && r == (lo + hi) / 2 && r != y && c == x
    }
}

/// The clearing of corridor column `c` (along `path` from `start_x`)
/// touches row `r`.
pub open spec fn hc_clears(path: Seq<usize>, start_x: int, start_y: int, end_y: int, corridor_height: int, r: int, c: int) -> bool {
    let y = path[c - start_x] as int;
    let min_y = if start_y <= end_y { start_y } else { end_y };
    let max_y = if start_y <= end_y { end_y } else { start_y };
    let eff = max_y - min_y + corridor_height;
    (y + 1 - eff <= r <= y) || (sat_sub(min_y, corridor_height) <= r <= y + 1)
}

/// The grid after carving a horizontal corridor along `path`.
pub open spec fn carved_h(gr: Seq<Seq<char>>, start_x: int, start_y: int, end_y: int, corridor_height: int, path: Seq<usize>) -> Seq<Seq<char>> {
    let w = first_width(gr) as int;
    let lo = if start_y <= end_y { start_y } else { end_y };
    let hi = if start_y <= end_y { end_y } else { start_y };
    let eff = hi - lo + corridor_height;
    Seq::new(gr.len(), |r: int| Seq::new(gr[r].len(), |c: int|
        if exists|i: int| #[trigger] hc_platform(path, start_x, start_y, end_y, w, i, r, c) {
            '_'
        } else if c < w && start_x <= c < start_x + path.len() {
            hc_cell(gr[r][c], r, path[c - start_x] as int, lo, corridor_height, eff)
        } else {
            gr[r][c]
        }))
}

/// Carving the horizontal corridor is possible: no index overflows and
/// every cell written exists.
pub open spec fn carve_h_ok(gr: Seq<Seq<char>>, start_x: int, start_y: int, end_y: int, corridor_height: int, path: Seq<usize>) -> bool {
    let w = first_width(gr) as int;
    let lo = if start_y <= end_y { start_y } else { end_y };
    let hi = if start_y <= end_y { end_y } else { start_y };
    let eff = hi - lo + corridor_height;
    &&& start_x + path.len() <= usize::MAX
    &&& eff <= usize::MAX
    &&& hi - lo > 5 && path.len() > 0 && start_x < w ==> start_y + end_y <= usize::MAX
    &&& forall|i: int| 0 <= i < path.len() ==> #[trigger] path[i] < usize::MAX
    &&& forall|r: int, c: int| 0 <= r < gr.len() && c < w && start_x <= c < start_x + path.len()
        && #[trigger] hc_clears(path, start_x, start_y, end_y, corridor_height, r, c) ==> c < gr[r].len()
    &&& forall|i: int, r: int, c: int| 0 <= r < gr.len() && #[trigger] hc_platform(path, start_x, start_y, end_y, w, i, r, c)
        ==> c < gr[r].len()
}

/// Carves a horizontal corridor of `corridor_len` columns from `start_x`,
/// running from row `start_y` to row `end_y`; `path_rows[i]` is the
/// corridor's row at column `start_x + i` (the straight line between the
/// ends). Clears the whole height between the ends plus `corridor_height`,
/// then adds stepping platforms.
pub fn carve_horizontal_corridor(tilemap: &mut Vec<Vec<char>>, start_x: usize, start_y: usize, corridor_len: usize, end_y: usize, corridor_height: usize, path_rows: &Vec<usize>)
    requires
        path_rows@.len() == corridor_len,
        carve_h_ok(grid(old(tilemap)), start_x as int, start_y as int, end_y as int, corridor_height as int, path_rows@),
    ensures
        grid(final(tilemap)) == carved_h(grid(old(tilemap)), start_x as int, start_y as int, end_y as int, corridor_height as int, path_rows@),
        same_shape(grid(old(tilemap)), grid(final(tilemap))),
{
    let ghost g0 = grid(tilemap);
    let h = tilemap.len();
    let w = if h > 0 { tilemap[0].len() } else { 0 };
    assert(w == first_width(g0));
    let min_y = if start_y <= end_y { start_y } else { end_y };
    let max_y = if start_y <= end_y { end_y } else { start_y };
    let height_diff = max_y - min_y;
    let effective_clearance = height_diff + corridor_height;
    let carve_top = min_y.saturating_sub(corridor_height);

    let mut i: usize = 0;
    while i < corridor_len
        invariant
            g0 == grid(old(tilemap)),
            h == g0.len(),
            h == tilemap@.len(),
            w == first_width(g0),
            path_rows@.len() == corridor_len,
            min_y == (if start_y <= end_y { start_y } else { end_y }),
            effective_clearance == max_y - min_y + corridor_height,
            max_y == (if start_y <= end_y { end_y } else { start_y }),
            carve_top == sat_sub(min_y as int, corridor_height as int),
            carve_h_ok(g0, start_x as int, start_y as int, end_y as int, corridor_height as int, path_rows@),
            i <= corridor_len,
            same_shape(g0, grid(tilemap)),
            forall|r: int, c: int| 0 <= r < h && 0 <= c < g0[r].len()
                ==> #[trigger] grid(tilemap)[r][c] == if c < w && start_x <= c < start_x + i {
                    hc_cell(g0[r][c], r, path_rows@[c - start_x] as int, min_y as int, corridor_height as int, effective_clearance as int)
                } else {
                    g0[r][c]
                },
        decreases corridor_len - i,
    {
        let x = start_x + i;
        if x < w {
            let y = path_rows[i];
            let bottom = if y + 1 < h { y + 2 } else { h };
            assert forall|r: int| carve_top <= r < bottom && r < tilemap@.len()
                implies x < #[trigger] grid(tilemap)[r].len() by {
                let c = x as int;
                assert(path_rows@[c - start_x] == y);
                assert(hc_clears(path_rows@, start_x as int, start_y as int, end_y as int, corridor_height as int, r, c));
            }
            clear_col_keeping_platforms(tilemap, x, carve_top, bottom);
            let lo = if y + 1 >= effective_clearance { y + 1 - effective_clearance } else { 0 };
            assert forall|r: int| lo <= r < y + 1 && r < tilemap@.len()
                implies x < #[trigger] grid(tilemap)[r].len() by {
                let c = x as int;
                assert(path_rows@[c - start_x] == y);
                assert(hc_clears(path_rows@, start_x as int, start_y as int, end_y as int, corridor_height as int, r, c));
            }
            fill_col(tilemap, x, lo, y + 1, ' ');
        }
        i = i + 1;
    }
    let ghost g1 = grid(tilemap);
    let mut i: usize = 0;
    while i < corridor_len
        invariant
            g0 == grid(old(tilemap)),
            h == g0.len(),
            h == tilemap@.len(),
            w == first_width(g0),
            path_rows@.len() == corridor_len,
            min_y == (if start_y <= end_y { start_y } else { end_y }),
            max_y == (if start_y <= end_y { end_y } else { start_y }),
            height_diff == max_y - min_y,
            carve_h_ok(g0, start_x as int, start_y as int, end_y as int, corridor_height as int, path_rows@),
            i <= corridor_len,
            same_shape(g0, g1),
            same_shape(g0, grid(tilemap)),
            forall|r: int, c: int| 0 <= r < h && 0 <= c < g0[r].len()
                ==> #[trigger] grid(tilemap)[r][c] == if exists|j: int| 0 <= j < i && #[trigger] hc_platform(path_rows@, start_x as int, start_y as int, end_y as int, w as int, j, r, c) {
                    '_'
                } else {
                    g1[r][c]
                },
        decreases corridor_len - i,
    {
        let x = start_x + i;
        if x < w {
            let base_y = path_rows[i];
            if i % 3 == 1 {
                let platform_y = if (i / 3) % 2 == 0 { base_y } else { base_y.saturating_sub(2) };
                if platform_y < h {
                    assert(hc_platform(path_rows@, start_x as int, start_y as int, end_y as int, w as int, i as int, platform_y as int, x as int));
                    assert(grid(tilemap)[platform_y as int] == tilemap@[platform_y as int]@);
                    write_cell(tilemap, platform_y, x, '_');
                    assert(grid(tilemap)[platform_y as int].len() == g0[platform_y as int].len());
                    if x + 1 < w {
                        assert(hc_platform(path_rows@, start_x as int, start_y as int, end_y as int, w as int, i as int, platform_y as int, x + 1));
                        write_cell(tilemap, platform_y, x + 1, '_');
                    }
                }
            }
            if height_diff > 5 && i % 6 == 0 {
                let mid_y = (min_y + max_y) / 2;
                if mid_y < h && mid_y != base_y {
                    assert(hc_platform(path_rows@, start_x as int, start_y as int, end_y as int, w as int, i as int, mid_y as int, x as int));
                    assert(grid(tilemap)[mid_y as int] == tilemap@[mid_y as int]@);
                    write_cell(tilemap, mid_y, x, '_');
                }
            }
        }
        assert forall|r: int, c: int| 0 <= r < h && 0 <= c < g0[r].len()
            implies #[trigger] grid(tilemap)[r][c] == if exists|j: int| 0 <= j < i + 1 && #[trigger] hc_platform(path_rows@, start_x as int, start_y as int, end_y as int, w as int, j, r, c) {
                '_'
            } else {
                g1[r][c]
            } by {
            if hc_platform(path_rows@, start_x as int, start_y as int, end_y as int, w as int, i as int, r, c) {
                assert(exists|j: int| 0 <= j < i + 1 && #[trigger] hc_platform(path_rows@, start_x as int, start_y as int, end_y as int, w as int, j, r, c));
            }
        }
        i = i + 1;
    }
    assert forall|r: int| 0 <= r < h implies #[trigger] grid(tilemap)[r]
        =~= carved_h(g0, start_x as int, start_y as int, end_y as int, corridor_height as int, path_rows@)[r] by {
        assert forall|c: int| 0 <= c < g0[r].len() implies grid(tilemap)[r][c]
            == #[trigger] carved_h(g0, start_x as int, start_y as int, end_y as int, corridor_height as int, path_rows@)[r][c] by {
            if exists|j: int| #[trigger] hc_platform(path_rows@, start_x as int, start_y as int, end_y as int, w as int, j, r, c) {
                let j = choose|j: int| #[trigger] hc_platform(path_rows@, start_x as int, start_y as int, end_y as int, w as int, j, r, c);
                assert(0 <= j < corridor_len);
            }
        }
    }
    assert(grid(tilemap) =~= carved_h(g0, start_x as int, start_y as int, end_y as int, corridor_height as int, path_rows@));
}

/// Rows `min_y..max_y` of a vertical corridor: from the higher end down
/// `corridor_len` rows past the lower one, clamped to the grid height `h`.
pub open spec fn vc_span(start_y: int, end_y: int, corridor_len: int, h: int) -> (int, int) {
    let lo = if start_y <= end_y { start_y } else { end_y };
    let top = (if start_y <= end_y { end_y } else { start_y }) + corridor_len;
    (lo, if top < h { top } else { h })
}

/// The vertical corridor clears row `r`, column `c`: five columns around
/// the shaft column of that row.
pub open spec fn vc_clears(shaft: Seq<usize>, min_y: int, max_y: int, w: int, r: int, c: int) -> bool {
    let s = shaft[r - min_y] as int;
    &&& min_y <= r < max_y
    &&& sat_sub(s, 2) <= c < sat_sub(s, 2) + 5
    &&& c < w
}

/// The vertical corridor puts a platform at row `r`, column `c`: on every
/// fourth row from `min_y`, a two-wide platform two columns left of the
/// shaft (on rows `r` with `r / 4` even) or two columns right of it,
/// kept off the outer columns.
pub open spec fn vc_platform(shaft: Seq<usize>, min_y: int, max_y: int, w: int, r: int, c: int) -> bool {
    let s = shaft[r - min_y] as int;
    let p = if (r / 4) % 2 == 0 { s - 2 } else { s + 2 };
    &&& min_y <= r < max_y
    &&& (r - min_y) % 4 == 0
    &&& 0 < p < w - 1
    &&& (c == p || c == p + 1)
}

/// The grid after carving a vertical corridor whose shaft column at row
/// `min_y + k` is `shaft[k]`.
pub open spec fn carved_v(gr: Seq<Seq<char>>, start_y: int, end_y: int, corridor_len: int, shaft: Seq<usize>) -> Seq<Seq<char>> {
    let w = first_width(gr) as int;
    let span = vc_span(start_y, end_y, corridor_len, gr.len() as int);
    Seq::new(gr.len(), |r: int| Seq::new(gr[r].len(), |c: int|
        if vc_platform(shaft, span.0, span.1, w, r, c) {
            '_'
        } else if vc_clears(shaft, span.0, span.1, w, r, c) {
            ' '
        } else {
            gr[r][c]
        }))
}

/// Carving the vertical corridor is possible: the shaft has one column per
/// row, no index overflows, the grid has a width where rows are carved,
/// and every cell written exists.
pub open spec fn carve_v_ok(gr: Seq<Seq<char>>, start_y: int, end_y: int, corridor_len: int, shaft: Seq<usize>) -> bool {
    let w = first_width(gr) as int;
    let span = vc_span(start_y, end_y, corridor_len, gr.len() as int);
    &&& (if start_y <= end_y { end_y } else { start_y }) + corridor_len <= usize::MAX
    &&& shaft.len() == (if span.1 > span.0 { span.1 - span.0 } else { 0 })
    &&& forall|k: int| 0 <= k < shaft.len() ==> sat_sub(#[trigger] shaft[k] as int, 2) + 4 <= usize::MAX
    &&& forall|k: int| 0 <= k < shaft.len() && k % 4 == 0 ==> #[trigger] shaft[k] + 2 <= i32::MAX
    &&& span.0 < span.1 ==> w > 0
    &&& forall|r: int, c: int| 0 <= r < gr.len() && 0 <= c && #[trigger] vc_clears(shaft, span.0, span.1, w, r, c)
        ==> c < gr[r].len()
    &&& forall|r: int, c: int| 0 <= r < gr.len() && 0 <= c && #[trigger] vc_platform(shaft, span.0, span.1, w, r, c)
        ==> c < gr[r].len()
}

/// Carves a vertical shaft five columns wide from the higher of
/// `start_y`, `end_y` down `corridor_len` rows past the lower one (within
/// the grid), with small platforms every four rows on alternating sides;
/// `shaft_cols[k]` is the shaft's column at row `min_y + k` (the straight
/// line from `start_x` to `end_x`).
pub fn carve_vertical_corridor(tilemap: &mut Vec<Vec<char>>, start_x: usize, start_y: usize, corridor_len: usize, end_y: usize, end_x: usize, shaft_cols: &Vec<usize>)
    requires
        carve_v_ok(grid(old(tilemap)), start_y as int, end_y as int, corridor_len as int, shaft_cols@),
    ensures
        grid(final(tilemap)) == carved_v(grid(old(tilemap)), start_y as int, end_y as int, corridor_len as int, shaft_cols@),
        same_shape(grid(old(tilemap)), grid(final(tilemap))),
{
    let ghost g0 = grid(tilemap);
    let h = tilemap.len();
    let w = if h > 0 { tilemap[0].len() } else { 0 };
    assert(w == first_width(g0));
    let corridor_width: usize = 5;
    let min_y = if start_y <= end_y { start_y } else { end_y };
    let top = (if start_y <= end_y { end_y } else { start_y }) + corridor_len;
    let max_y = if top < h { top } else { h };
    let ghost span = vc_span(start_y as int, end_y as int, corridor_len as int, h as int);
    assert(span == (min_y as int, max_y as int));

    let mut y = min_y;
    while y < max_y
        invariant
            g0 == grid(old(tilemap)),
            h == g0.len(),
            h == tilemap@.len(),
            w == first_width(g0),
            span == (min_y as int, max_y as int),
            span == vc_span(start_y as int, end_y as int, corridor_len as int, h as int),
            carve_v_ok(g0, start_y as int, end_y as int, corridor_len as int, shaft_cols@),
            min_y <= y,
            corridor_width == 5,
            y <= max_y || y == min_y,
            max_y <= h,
            same_shape(g0, grid(tilemap)),
            forall|r: int, c: int| 0 <= r < h && 0 <= c < g0[r].len()
                ==> #[trigger] grid(tilemap)[r][c] == if r < y && vc_clears(shaft_cols@, min_y as int, max_y as int, w as int, r, c) {
                    ' '
                } else {
                    g0[r][c]
                },
        decreases max_y - y,
    {
        let shaft_x = shaft_cols[y - min_y];
        let lo = shaft_x.saturating_sub(corridor_width / 2);
        assert(lo == sat_sub(shaft_cols@[y - min_y] as int, 2));
        proof {
            if lo < w {
                let last = if lo + 5 < w { lo + 4 } else { w - 1 };
                assert(vc_clears(shaft_cols@, min_y as int, max_y as int, w as int, y as int, last as int));
            }
        }
        fill_row(tilemap, y, lo, corridor_width, w, ' ');
        y = y + 1;
    }
    let ghost g1 = grid(tilemap);
    assert forall|r: int, c: int| 0 <= r < h && 0 <= c < g0[r].len()
        implies #[trigger] g1[r][c] == if vc_clears(shaft_cols@, min_y as int, max_y as int, w as int, r, c) { ' ' } else { g0[r][c] } by {
    }

    let n = if max_y > min_y { max_y - min_y } else { 0 };
    let mut k: usize = 0;
    while k < n
        invariant
            g0 == grid(old(tilemap)),
            h == g0.len(),
            h == tilemap@.len(),
            w == first_width(g0),
 span == (min_y as int, max_y as int),
            span == vc_span(start_y as int, end_y as int, corridor_len as int, h as int),
            carve_v_ok(g0, start_y as int, end_y as int, corridor_len as int, shaft_cols@),
            n == (if max_y > min_y { max_y - min_y } else { 0 }),
            max_y <= h,
            k <= n,
            k % 4 == 0 || k == n,
            same_shape(g0, grid(tilemap)),
            forall|r: int, c: int| 0 <= r < h && 0 <= c < g0[r].len()
                ==> #[trigger] grid(tilemap)[r][c] == if r < min_y + k && vc_platform(shaft_cols@, min_y as int, max_y as int, w as int, r, c) {
                    '_'
                } else {
                    g1[r][c]
                },
        decreases n - k,
    {
        let y = min_y + k;
        let shaft_x = shaft_cols[k];
        let left = (y / 4) % 2 == 0;
        if left && shaft_x < 2 {
            // the platform would lie left of the grid
        } else {
            let platform_x = if left { shaft_x - 2 } else { shaft_x + 2 };
            if platform_x > 0 && platform_x < w - 1 {
                assert(vc_platform(shaft_cols@, min_y as int, max_y as int, w as int, y as int, platform_x as int));
                assert(vc_platform(shaft_cols@, min_y as int, max_y as int, w as int, y as int, platform_x + 1));
                assert(grid(tilemap)[y as int] == tilemap@[y as int]@);
                write_cell(tilemap, y, platform_x, '_');
                assert(grid(tilemap)[y as int].len() == g0[y as int].len());
                if platform_x + 1 < w {
                    write_cell(tilemap, y, platform_x + 1, '_');
                }
            }
        }
        if n - k > 4 {
            k = k + 4;
        } else {
            k = n;
        }
    }
    assert forall|r: int| 0 <= r < h implies #[trigger] grid(tilemap)[r]
        =~= carved_v(g0, start_y as int, end_y as int, corridor_len as int, shaft_cols@)[r] by {}
    assert(grid(tilemap) =~= carved_v(g0, start_y as int, end_y as int, corridor_len as int, shaft_cols@));
}

} // verus!
