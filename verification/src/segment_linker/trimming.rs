//! Trimming wall padding off a generated level.

use vstd::prelude::*;
use crate::segment_linker::grid::{clone_grid, copy_range, first_width, grid, min_int, push_row, sat_sub};
use crate::segment_linker::segment::pad_row;
use crate::text::{chars_to_string, join_lines, join_rows, lines_of, split_lines, str_chars};

verus! {

/// Tiles other than walls and empty space are content.
pub open spec fn is_content(t: char) -> bool {
    !(t == '#' || t == ' ')
}

/// The cell at row `y`, column `x` exists and holds content.
pub open spec fn content_at(gr: Seq<Seq<char>>, y: int, x: int) -> bool {
    0 <= y < gr.len() && 0 <= x < gr[y].len() && is_content(gr[y][x])
}

/// The grid holds at least one content cell.
pub open spec fn has_content(gr: Seq<Seq<char>>) -> bool {
    exists|y: int, x: int| #[trigger] content_at(gr, y, x)
}

/// `(min_x, min_y, max_x, max_y)` is the bounding box of the content cells:
/// every content cell lies inside it and each side touches one.
pub open spec fn is_content_bounds(gr: Seq<Seq<char>>, b: (usize, usize, usize, usize)) -> bool {
    &&& forall|y: int, x: int| #[trigger] content_at(gr, y, x)
        ==> b.0 <= x <= b.2 && b.1 <= y <= b.3
    &&& exists|y: int, x: int| #[trigger] content_at(gr, y, x) && x == b.0
    &&& exists|y: int, x: int| #[trigger] content_at(gr, y, x) && y == b.1
    &&& exists|y: int, x: int| #[trigger] content_at(gr, y, x) && x == b.2
    &&& exists|y: int, x: int| #[trigger] content_at(gr, y, x) && y == b.3
}

/// The content bounding box, if the grid has content.
pub open spec fn content_bounds(gr: Seq<Seq<char>>) -> Option<(usize, usize, usize, usize)> {
    if has_content(gr) {
        Some(choose|b: (usize, usize, usize, usize)| is_content_bounds(gr, b))
    } else {
        None
    }
}

/// A content bounding box is unique.
pub proof fn lemma_bounds_unique(gr: Seq<Seq<char>>, b1: (usize, usize, usize, usize), b2: (usize, usize, usize, usize))
    requires
        is_content_bounds(gr, b1),
        is_content_bounds(gr, b2),
    ensures
        b1 == b2,
{
    let (y0, x0) = choose|y: int, x: int| #[trigger] content_at(gr, y, x) && x == b1.0;
    let (y1, x1) = choose|y: int, x: int| #[trigger] content_at(gr, y, x) && x == b2.0;
    let (y2, x2) = choose|y: int, x: int| #[trigger] content_at(gr, y, x) && y == b1.1;
    let (y3, x3) = choose|y: int, x: int| #[trigger] content_at(gr, y, x) && y == b2.1;
    let (y4, x4) = choose|y: int, x: int| #[trigger] content_at(gr, y, x) && x == b1.2;
    let (y5, x5) = choose|y: int, x: int| #[trigger] content_at(gr, y, x) && x == b2.2;
    let (y6, x6) = choose|y: int, x: int| #[trigger] content_at(gr, y, x) && y == b1.3;
    let (y7, x7) = choose|y: int, x: int| #[trigger] content_at(gr, y, x) && y == b2.3;
}

/// Leftmost and rightmost content column among the first `m` cells of a row.
proof fn lemma_row_extent(row: Seq<char>, m: int) -> (res: (int, int))
    requires
        0 <= m <= row.len(),
        exists|x: int| 0 <= x < m && #[trigger] is_content(row[x]),
    ensures
        0 <= res.0 <= res.1 < m,
        is_content(row[res.0]),
        is_content(row[res.1]),
        forall|x: int| 0 <= x < m && #[trigger] is_content(row[x]) ==> res.0 <= x <= res.1,
    decreases m,
{
    if exists|x: int| 0 <= x < m - 1 && #[trigger] is_content(row[x]) {
        let (lo, hi) = lemma_row_extent(row, m - 1);
        if is_content(row[m - 1]) {
            (lo, m - 1)
        } else {
            (lo, hi)
        }
    } else {
        (m - 1, m - 1)
    }
}

/// The content cells of the first `n` rows have a bounding box
/// `(lo_x, lo_y, hi_x, hi_y)`; returned with a content cell on each side:
/// rows `ya`, `yc` of columns `lo_x`, `hi_x` and columns `xb`, `xd` of rows
/// `lo_y`, `hi_y`, as `(box, (ya, xb, yc, xd))`.
proof fn lemma_rows_extent(gr: Seq<Seq<char>>, n: int) -> (res: ((int, int, int, int), (int, int, int, int)))
    requires
        0 <= n <= gr.len(),
        exists|y: int, x: int| #[trigger] content_at(gr, y, x) && y < n,
    ensures
        forall|y: int, x: int| #[trigger] content_at(gr, y, x) && y < n
            ==> res.0.0 <= x <= res.0.2 && res.0.1 <= y <= res.0.3,
        content_at(gr, res.1.0, res.0.0) && res.1.0 < n,
        content_at(gr, res.0.1, res.1.1) && res.0.1 < n,
        content_at(gr, res.1.2, res.0.2) && res.1.2 < n,
        content_at(gr, res.0.3, res.1.3) && res.0.3 < n,
    decreases n,
{
    let r = n - 1;
    let row = gr[r];
    if exists|y: int, x: int| #[trigger] content_at(gr, y, x) && y < r {
        let (pb, pw) = lemma_rows_extent(gr, r);
        if exists|x: int| 0 <= x < row.len() && #[trigger] is_content(row[x]) {
            let (lo, hi) = lemma_row_extent(row, row.len() as int);
            assert(content_at(gr, r, lo));
            assert(content_at(gr, r, hi));
            let left = if lo < pb.0 { lo } else { pb.0 };
            let right = if hi > pb.2 { hi } else { pb.2 };
            let wl = if lo < pb.0 { r } else { pw.0 };
            let wr = if hi > pb.2 { r } else { pw.2 };
            assert forall|y: int, x: int| #[trigger] content_at(gr, y, x) && y < n
                implies left <= x <= right && pb.1 <= y <= r by {
                if y == r {
                    assert(is_content(row[x]));
                }
            }
            ((left, pb.1, right, r), (wl, pw.1, wr, lo))
        } else {
            assert forall|y: int, x: int| #[trigger] content_at(gr, y, x) && y < n
                implies pb.0 <= x <= pb.2 && pb.1 <= y <= pb.3 by {
                if y == r {
                    assert(is_content(row[x]));
                }
            }
            (pb, pw)
        }
    } else {
        let (y0, x0) = choose|y: int, x: int| #[trigger] content_at(gr, y, x) && y < n;
        assert(y0 == r);
        assert(is_content(row[x0]));
        let (lo, hi) = lemma_row_extent(row, row.len() as int);
        assert(content_at(gr, r, lo));
        assert(content_at(gr, r, hi));
        assert forall|y: int, x: int| #[trigger] content_at(gr, y, x) && y < n
            implies lo <= x <= hi && r <= y <= r by {
            assert(y == r);
            assert(is_content(row[x]));
        }
        ((lo, r, hi, r), (r, lo, r, lo))
    }
}

/// The grid's dimensions fit in `usize`, as those of any grid in memory do.
pub open spec fn grid_fits(gr: Seq<Seq<char>>) -> bool {
    &&& gr.len() <= usize::MAX
    &&& forall|y: int| 0 <= y < gr.len() ==> #[trigger] gr[y].len() <= usize::MAX
}

/// A grid with content has a content bounding box.
pub proof fn lemma_bounds_exist(gr: Seq<Seq<char>>)
    requires
        grid_fits(gr),
        has_content(gr),
    ensures
        content_bounds(gr) matches Some(b) && is_content_bounds(gr, b),
{
    let (y0, x0) = choose|y: int, x: int| #[trigger] content_at(gr, y, x);
    assert(content_at(gr, y0, x0) && y0 < gr.len());
    let (b, w) = lemma_rows_extent(gr, gr.len() as int);
    let (ya, xb, yc, xd) = w;
    assert(gr[ya].len() <= usize::MAX);
    assert(gr[yc].len() <= usize::MAX);
    let bu = (b.0 as usize, b.1 as usize, b.2 as usize, b.3 as usize);
    assert(content_at(gr, ya, bu.0 as int));
    assert(content_at(gr, bu.1 as int, xb));
    assert(content_at(gr, yc, bu.2 as int));
    assert(content_at(gr, bu.3 as int, xd));
    assert(is_content_bounds(gr, bu));
    lemma_bounds_unique(gr, bu, choose|b: (usize, usize, usize, usize)| is_content_bounds(gr, b));
}

/// Whether a tile is content (neither wall nor empty space).
pub fn is_content_tile(tile: char) -> (b: bool)
    ensures
        b == is_content(tile),
{
    !(tile == '#' || tile == ' ')
}

/// Cells before position `(r, c)` in row-major order.
pub open spec fn before(y: int, x: int, r: int, c: int) -> bool {
    y < r || (y == r && x < c)
}

/// The bounding box of the content cells, or `None` when there are none.
pub fn find_content_bounds(tiles: &Vec<Vec<char>>) -> (res: Option<(usize, usize, usize, usize)>)
    ensures
        res == content_bounds(grid(tiles)),
        res matches Some(b) ==> is_content_bounds(grid(tiles), b),
{
    let ghost gr = grid(tiles);
    let height = tiles.len();
    if height == 0 {
        assert(!has_content(gr));
        return None;
    }
    let mut min_x: usize = usize::MAX;
    let mut max_x: usize = 0;
    let mut min_y: usize = usize::MAX;
    let mut max_y: usize = 0;
    let ghost mut w0: (int, int) = (0, 0);
    let ghost mut w1: (int, int) = (0, 0);
    let ghost mut w2: (int, int) = (0, 0);
    let ghost mut w3: (int, int) = (0, 0);

    let mut y: usize = 0;
    while y < height
        invariant
            height == tiles@.len(),
            gr == grid(tiles),
            y <= height,
            min_x == usize::MAX <==> (forall|yy: int, xx: int| #[trigger] content_at(gr, yy, xx) ==> !before(yy, xx, y as int, 0)),
            forall|yy: int, xx: int| #[trigger] content_at(gr, yy, xx) && before(yy, xx, y as int, 0)
                ==> min_x <= xx <= max_x && min_y <= yy <= max_y,
            min_x != usize::MAX ==> {
                &&& content_at(gr, w0.0, w0.1) && w0.1 == min_x && before(w0.0, w0.1, y as int, 0)
                &&& content_at(gr, w1.0, w1.1) && w1.0 == min_y && before(w1.0, w1.1, y as int, 0)
                &&& content_at(gr, w2.0, w2.1) && w2.1 == max_x && before(w2.0, w2.1, y as int, 0)
                &&& content_at(gr, w3.0, w3.1) && w3.0 == max_y && before(w3.0, w3.1, y as int, 0)
            },
        decreases height - y,
    {
        let row = &tiles[y];
        let n = row.len();
        let mut x: usize = 0;
        while x < n
            invariant
                height == tiles@.len(),
                gr == grid(tiles),
                y < height,
                row@ == gr[y as int],
                n == row@.len(),
                x <= n,
                min_x == usize::MAX <==> (forall|yy: int, xx: int| #[trigger] content_at(gr, yy, xx) ==> !before(yy, xx, y as int, x as int)),
                forall|yy: int, xx: int| #[trigger] content_at(gr, yy, xx) && before(yy, xx, y as int, x as int)
                    ==> min_x <= xx <= max_x && min_y <= yy <= max_y,
                min_x != usize::MAX ==> {
                    &&& content_at(gr, w0.0, w0.1) && w0.1 == min_x && before(w0.0, w0.1, y as int, x as int)
                    &&& content_at(gr, w1.0, w1.1) && w1.0 == min_y && before(w1.0, w1.1, y as int, x as int)
                    &&& content_at(gr, w2.0, w2.1) && w2.1 == max_x && before(w2.0, w2.1, y as int, x as int)
                    &&& content_at(gr, w3.0, w3.1) && w3.0 == max_y && before(w3.0, w3.1, y as int, x as int)
                },
            decreases n - x,
        {
            if is_content_tile(row[x]) {
                assert(content_at(gr, y as int, x as int));
                let first = min_x == usize::MAX;
                if first || x < min_x {
                    min_x = x;
                    proof { w0 = (y as int, x as int); }
                }
                if first || x > max_x {
                    max_x = x;
                    proof { w2 = (y as int, x as int); }
                }
                if first || y < min_y {
                    min_y = y;
                    proof { w1 = (y as int, x as int); }
                }
                if first || y > max_y {
                    max_y = y;
                    proof { w3 = (y as int, x as int); }
                }
            }
            x = x + 1;
        }
        y = y + 1;
    }
    if min_x == usize::MAX {
        assert(!has_content(gr));
        return None;
    }
    let b = (min_x, min_y, max_x, max_y);
    assert(is_content_bounds(gr, b));
    proof {
        lemma_bounds_unique(gr, b, choose|b: (usize, usize, usize, usize)| is_content_bounds(gr, b));
    }
    Some(b)
}

/// The window kept by trimming to bounds `b` with `margin` wall tiles
/// around them: `(lo_x, lo_y, hi_x, hi_y)`, half-open, clamped to the grid
/// (its width taken from the first row).
pub open spec fn trim_window(gr: Seq<Seq<char>>, b: (usize, usize, usize, usize), margin: usize) -> (int, int, int, int) {
    (
        sat_sub(b.0 as int, margin as int),
        sat_sub(b.1 as int, margin as int),
        min_int(b.2 + margin + 1, first_width(gr) as int),
        min_int(b.3 + margin + 1, gr.len() as int),
    )
}

/// Trimming can be carried out: the window does not overflow and is not
/// reversed (which happens when the first row is shorter than the content).
pub open spec fn trim_ok(gr: Seq<Seq<char>>, margin: usize) -> bool {
    content_bounds(gr) matches Some(b) ==> {
        &&& b.2 + margin + 1 <= usize::MAX
        &&& b.3 + margin + 1 <= usize::MAX
        &&& trim_window(gr, b, margin).0 <= trim_window(gr, b, margin).2
    }
}

/// Columns `lo..hi` of a row; a row that ends early is first cut at its
/// end and then padded with walls to `hi - lo` tiles.
pub open spec fn trim_row(row: Seq<char>, lo: int, hi: int) -> Seq<char> {
    if hi <= row.len() {
        row.subrange(lo, hi)
    } else {
        pad_row(row.subrange(min_int(lo, row.len() as int), row.len() as int), (hi - lo) as nat)
    }
}

/// The result of trimming `gr` with `margin`: rows, width, height.
pub open spec fn trimmed(gr: Seq<Seq<char>>, margin: usize) -> (Seq<Seq<char>>, int, int) {
    match content_bounds(gr) {
        None => (gr, first_width(gr) as int, gr.len() as int),
        Some(b) => {
            let w = trim_window(gr, b, margin);
            (
                Seq::new((w.3 - w.1) as nat, |i: int| trim_row(gr[w.1 + i], w.0, w.2)),
                w.2 - w.0,
                w.3 - w.1,
            )
        },
    }
}

/// Cuts a tilemap down to its content plus `margin` tiles on each side
/// (clamped to the map); returns the rows, the new width and height.
/// A map without content is returned unchanged.
pub fn trim_tilemap(tiles: &Vec<Vec<char>>, margin: usize) -> (res: (Vec<Vec<char>>, usize, usize))
    requires
        trim_ok(grid(tiles), margin),
    ensures
        grid(&res.0) == trimmed(grid(tiles), margin).0,
        res.1 == trimmed(grid(tiles), margin).1,
        res.2 == trimmed(grid(tiles), margin).2,
{
    let ghost gr = grid(tiles);
    let bounds = find_content_bounds(tiles);
    let (min_x, min_y, max_x, max_y) = match bounds {
        None => {
            let w = if tiles.len() > 0 { tiles[0].len() } else { 0 };
            return (clone_grid(tiles), w, tiles.len());
        },
        Some(b) => b,
    };
    let orig_width = if tiles.len() > 0 { tiles[0].len() } else { 0 };
    let orig_height = tiles.len();

    let trim_min_x = min_x.saturating_sub(margin);
    let trim_min_y = min_y.saturating_sub(margin);
    let trim_max_x = if max_x + margin + 1 < orig_width { max_x + margin + 1 } else { orig_width };
    let trim_max_y = if max_y + margin + 1 < orig_height { max_y + margin + 1 } else { orig_height };
    proof {
        let (y, x) = choose|y: int, x: int| #[trigger] content_at(gr, y, x) && y == max_y;
    }
    let new_width = trim_max_x - trim_min_x;
    let new_height = trim_max_y - trim_min_y;

    let mut trimmed_rows: Vec<Vec<char>> = Vec::new();
    let mut y = trim_min_y;
    while y < trim_max_y
        invariant
            gr == grid(tiles),
            trim_min_y <= y <= trim_max_y,
            trim_max_y <= tiles@.len(),
            trim_min_x <= trim_max_x,
            new_width == trim_max_x - trim_min_x,
            grid(&trimmed_rows) == Seq::new((y - trim_min_y) as nat,
                |i: int| trim_row(gr[trim_min_y + i], trim_min_x as int, trim_max_x as int)),
        decreases trim_max_y - y,
    {
        let row = &tiles[y];
        let len = row.len();
        let new_row = if trim_max_x <= len {
            copy_range(row, trim_min_x, trim_max_x)
        } else {
            let start = if trim_min_x < len { trim_min_x } else { len };
            let mut r = copy_range(row, start, len);
            let ghost base = r@;
            while r.len() < new_width
                invariant
                    base.len() <= r@.len(),
                    r@ == base + Seq::new((r@.len() - base.len()) as nat, |_i: int| '#'),
                    r@.len() <= new_width || r@ == base,
                decreases new_width - r@.len(),
            {
                r.push('#');
                assert(r@ =~= base + Seq::new((r@.len() - base.len()) as nat, |_i: int| '#'));
            }
            assert(r@ =~= pad_row(base, new_width as nat));
            r
        };
        assert(new_row@ == trim_row(gr[y as int], trim_min_x as int, trim_max_x as int));
        push_row(&mut trimmed_rows, new_row);
        y = y + 1;
        assert(grid(&trimmed_rows) =~= Seq::new((y - trim_min_y) as nat,
            |i: int| trim_row(gr[trim_min_y + i], trim_min_x as int, trim_max_x as int)));
    }
    (trimmed_rows, new_width, new_height)
}

/// Trimming keeps every content tile: a content tile at row `y`, column
/// `x` (within the first row's width) lies inside the trim window and
/// appears in the trimmed map at the same offset from the window's corner.
pub proof fn lemma_trim_keeps_content(gr: Seq<Seq<char>>, margin: usize, y: int, x: int)
    requires
        grid_fits(gr),
        trim_ok(gr, margin),
        content_at(gr, y, x),
        x < first_width(gr),
    ensures
        content_bounds(gr) matches Some(b) && {
            let w = trim_window(gr, b, margin);
            let t = trimmed(gr, margin).0;
            &&& w.0 <= x < w.2
            &&& w.1 <= y < w.3
            &&& x - w.0 < t[y - w.1].len()
            &&& t[y - w.1][x - w.0] == gr[y][x]
        },
{
    lemma_bounds_exist(gr);
    let b = content_bounds(gr)->Some_0;
    let w = trim_window(gr, b, margin);
    let row = gr[y];
    assert(b.0 <= x <= b.2 && b.1 <= y <= b.3);
    let t = trimmed(gr, margin).0;
    assert(t[y - w.1] == trim_row(row, w.0, w.2));
    if w.2 > row.len() {
        let sub = row.subrange(min_int(w.0, row.len() as int), row.len() as int);
        assert(min_int(w.0, row.len() as int) == w.0);
        assert(sub[x - w.0] == row[x]);
    }
}

/// With content present, trimming yields a rectangle: `height` rows of
/// exactly `width` tiles each, no larger than the input map.
pub proof fn lemma_trim_rectangular(gr: Seq<Seq<char>>, margin: usize)
    requires
        grid_fits(gr),
        trim_ok(gr, margin),
        has_content(gr),
    ensures
        trimmed(gr, margin).0.len() == trimmed(gr, margin).2,
        forall|i: int| 0 <= i < trimmed(gr, margin).2
            ==> #[trigger] trimmed(gr, margin).0[i].len() == trimmed(gr, margin).1,
        0 <= trimmed(gr, margin).1 <= first_width(gr),
        0 <= trimmed(gr, margin).2 <= gr.len(),
{
    lemma_bounds_exist(gr);
    let b = content_bounds(gr)->Some_0;
    let (yy, xx) = choose|y: int, x: int| #[trigger] content_at(gr, y, x) && y == b.3;
    assert forall|i: int| 0 <= i < trimmed(gr, margin).2
        implies #[trigger] trimmed(gr, margin).0[i].len() == trimmed(gr, margin).1 by {
        let w = trim_window(gr, b, margin);
        let row = gr[w.1 + i];
        if w.2 > row.len() {
            let sub = row.subrange(min_int(w.0, row.len() as int), row.len() as int);
            assert(sub.len() <= w.2 - w.0);
        }
    }
}

/// Trimming a rectangular map a second time with the same margin changes
/// nothing: the trimmed map can be trimmed again, and that gives back the
/// same rows, width and height.
#[verifier::spinoff_prover]
#[verifier::rlimit(50)]
pub proof fn lemma_trim_idempotent(gr: Seq<Seq<char>>, margin: usize)
    requires
        grid_fits(gr),
        trim_ok(gr, margin),
        forall|r: int| 0 <= r < gr.len() ==> #[trigger] gr[r].len() == first_width(gr),
    ensures
        trim_ok(trimmed(gr, margin).0, margin),
        trimmed(trimmed(gr, margin).0, margin) == trimmed(gr, margin),
{
    if has_content(gr) {
        lemma_bounds_exist(gr);
        let b = content_bounds(gr)->Some_0;
        let w = trim_window(gr, b, margin);
        let t = trimmed(gr, margin).0;
        let fw = first_width(gr) as int;
        let (ya, xa) = choose|y: int, x: int| #[trigger] content_at(gr, y, x) && x == b.0;
        let (yb, xb) = choose|y: int, x: int| #[trigger] content_at(gr, y, x) && y == b.1;
        let (yc, xc) = choose|y: int, x: int| #[trigger] content_at(gr, y, x) && x == b.2;
        let (yd, xd) = choose|y: int, x: int| #[trigger] content_at(gr, y, x) && y == b.3;
        assert(gr[yc].len() == fw);
        assert(b.2 < fw);
        assert(b.3 < gr.len());
        assert(w.0 <= b.0 && b.2 < w.2 && w.2 <= fw);
        assert(w.1 <= b.1 && b.3 < w.3 && w.3 <= gr.len());
        assert forall|i: int| 0 <= i < t.len() implies #[trigger] t[i] == gr[w.1 + i].subrange(w.0, w.2) by {
            assert(gr[w.1 + i].len() == fw);
        }
        assert forall|i: int, j: int| #[trigger] content_at(t, i, j)
            implies content_at(gr, w.1 + i, w.0 + j) by {
            assert(t[i] == gr[w.1 + i].subrange(w.0, w.2));
            assert(gr[w.1 + i].len() == fw);
        }
        assert forall|y: int, x: int| #[trigger] content_at(gr, y, x) && w.1 <= y < w.3 && w.0 <= x < w.2
            implies content_at(t, y - w.1, x - w.0) by {
            assert(t[y - w.1] == gr[y].subrange(w.0, w.2));
        }
        let bt = ((b.0 - w.0) as usize, (b.1 - w.1) as usize, (b.2 - w.0) as usize, (b.3 - w.1) as usize);
        assert(content_at(t, ya - w.1, xa - w.0));
        assert(content_at(t, yb - w.1, xb - w.0));
        assert(content_at(t, yc - w.1, xc - w.0));
        assert(content_at(t, yd - w.1, xd - w.0));
        assert(is_content_bounds(t, bt));
        assert(has_content(t));
        lemma_bounds_unique(t, bt, choose|c: (usize, usize, usize, usize)| is_content_bounds(t, c));
        assert(content_bounds(t) == Some(bt));
        assert(t[0].len() == w.2 - w.0);
        assert(first_width(t) == w.2 - w.0);
        let w2 = trim_window(t, bt, margin);
        assert(w2 == (0int, 0int, w.2 - w.0, w.3 - w.1));
        assert forall|i: int| 0 <= i < t.len() implies #[trigger] trim_row(t[i], 0, w.2 - w.0) == t[i] by {
            assert(t[i].subrange(0, w.2 - w.0) =~= t[i]);
        }
        assert(trimmed(t, margin).0 =~= t);
    }
}

/// Trims a tilemap given as text (one row per line); returns the trimmed
/// rows joined with `\n`, and the new width and height.
pub fn trim_tilemap_string(tilemap: &str, margin: usize) -> (res: (String, usize, usize))
    requires
        trim_ok(lines_of(tilemap@), margin),
    ensures
        res.0@ == join_lines(trimmed(lines_of(tilemap@), margin).0),
        res.1 == trimmed(lines_of(tilemap@), margin).1,
        res.2 == trimmed(lines_of(tilemap@), margin).2,
{
    let chars = str_chars(tilemap);
    let tiles = split_lines(&chars);
    assert(grid(&tiles) =~= lines_of(tilemap@));
    let (rows, width, height) = trim_tilemap(&tiles, margin);
    let joined = join_rows(&rows);
    assert(Seq::new(rows@.len(), |i: int| rows@[i]@) =~= grid(&rows));
    (chars_to_string(&joined), width, height)
}

} // verus!
