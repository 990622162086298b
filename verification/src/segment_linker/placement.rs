//! Placing the spawn and exit markers of a linked level.

use vstd::prelude::*;
use crate::segment_linker::grid::{first_width, grid, same_shape, set_cell, write_cell};
use crate::segment_linker::segment::{ParsedSegment, SegmentPlacement};

verus! {

/// No row of the grid is shorter than its first row.
pub open spec fn rows_cover_width(gr: Seq<Seq<char>>) -> bool {
    forall|r: int| 0 <= r < gr.len() ==> first_width(gr) <= #[trigger] gr[r].len()
}

/// A tile that can carry a marker standing on it.
pub open spec fn is_floor(t: char) -> bool {
    t == '#' || t == '=' || t == '-'
}

/// Search key of column `x`: left to right, or right to left.
pub open spec fn col_key(prefer_left: bool, x: int) -> int {
    if prefer_left { x } else { -x }
}

/// Local position `(x, y)` of a segment placed at `(px, py)` is a marker
/// candidate: away from the segment's edges (three columns, two rows),
/// inside the grid with a row below, on empty space, and above a floor
/// (`floor`) or above empty space (not `floor`).
pub open spec fn marker_candidate(gr: Seq<Seq<char>>, seg_w: int, seg_h: int, px: int, py: int, floor: bool, x: int, y: int) -> bool {
    let gx = px + x;
    let gy = py + y;
    &&& 3 <= x < seg_w - 3
    &&& 2 <= y < seg_h - 2
    &&& gy + 1 < gr.len()
    &&& gx < first_width(gr)
    &&& gr[gy][gx] == ' '
    &&& if floor { is_floor(gr[gy + 1][gx]) } else { gr[gy + 1][gx] == ' ' }
}

/// `(x, y)` is the first marker candidate in search order (columns in the
/// preferred direction, then rows top to bottom).
pub open spec fn first_marker_candidate(gr: Seq<Seq<char>>, seg_w: int, seg_h: int, px: int, py: int, floor: bool, prefer_left: bool, x: int, y: int) -> bool {
    &&& marker_candidate(gr, seg_w, seg_h, px, py, floor, x, y)
    &&& forall|x2: int, y2: int| #[trigger] marker_candidate(gr, seg_w, seg_h, px, py, floor, x2, y2)
        ==> !(col_key(prefer_left, x2) < col_key(prefer_left, x) || (x2 == x && y2 < y))
}

/// The global position chosen for a marker in a segment: the first
/// candidate above a floor, else the first above empty space.
pub open spec fn marker_position(gr: Seq<Seq<char>>, seg_w: int, seg_h: int, px: int, py: int, prefer_left: bool) -> Option<(int, int)> {
    if exists|x: int, y: int| #[trigger] marker_candidate(gr, seg_w, seg_h, px, py, true, x, y) {
        let (x, y) = choose|x: int, y: int| first_marker_candidate(gr, seg_w, seg_h, px, py, true, prefer_left, x, y);
        Some((px + x, py + y))
    } else if exists|x: int, y: int| #[trigger] marker_candidate(gr, seg_w, seg_h, px, py, false, x, y) {
        let (x, y) = choose|x: int, y: int| first_marker_candidate(gr, seg_w, seg_h, px, py, false, prefer_left, x, y);
        Some((px + x, py + y))
    } else {
        None
    }
}

/// Two first candidates are the same position.
proof fn lemma_first_marker_unique(gr: Seq<Seq<char>>, seg_w: int, seg_h: int, px: int, py: int, floor: bool, prefer_left: bool, x1: int, y1: int, x2: int, y2: int)
    requires
        first_marker_candidate(gr, seg_w, seg_h, px, py, floor, prefer_left, x1, y1),
        first_marker_candidate(gr, seg_w, seg_h, px, py, floor, prefer_left, x2, y2),
    ensures
        x1 == x2 && y1 == y2,
{
    assert(marker_candidate(gr, seg_w, seg_h, px, py, floor, x1, y1));
    assert(marker_candidate(gr, seg_w, seg_h, px, py, floor, x2, y2));
}

/// One search pass for a marker position.
fn marker_pass(tilemap: &Vec<Vec<char>>, seg: &ParsedSegment, placement: &SegmentPlacement, height: usize, width: usize, prefer_left: bool, floor: bool) -> (res: Option<(usize, usize)>)
    requires
        height == grid(tilemap).len(),
        width == first_width(grid(tilemap)),
        rows_cover_width(grid(tilemap)),
        placement.x + seg.width <= usize::MAX,
        placement.y + seg.height <= usize::MAX,
    ensures
        match res {
            Some((gx, gy)) => gy + 1 < height && gx < width && exists|x: int, y: int| {
                &&& #[trigger] first_marker_candidate(grid(tilemap), seg.width as int, seg.height as int, placement.x as int, placement.y as int, floor, prefer_left, x, y)
                &&& gx == placement.x + x
                &&& gy == placement.y + y
            },
            None => forall|x: int, y: int| !#[trigger] marker_candidate(grid(tilemap), seg.width as int, seg.height as int, placement.x as int, placement.y as int, floor, x, y),
        },
{
    let ghost gr = grid(tilemap);
    let ghost sw = seg.width as int;
    let ghost sh = seg.height as int;
    let ghost px = placement.x as int;
    let ghost py = placement.y as int;
    let x_end = seg.width.saturating_sub(3);
    let y_end = seg.height.saturating_sub(2);
    let n = if x_end > 3 { x_end - 3 } else { 0 };
    let mut j: usize = 0;
    while j < n
        invariant
            gr == grid(tilemap),
            sw == seg.width as int,
            sh == seg.height as int,
            px == placement.x as int,
            py == placement.y as int,
            height == gr.len(),
            width == first_width(gr),
            rows_cover_width(gr),
            placement.x + seg.width <= usize::MAX,
            placement.y + seg.height <= usize::MAX,
            x_end == (if seg.width >= 3 { seg.width - 3 } else { 0 }),
            y_end == (if seg.height >= 2 { seg.height - 2 } else { 0 }),
            n == (if x_end > 3 { x_end - 3 } else { 0 }),
            j <= n,
            forall|x2: int, y2: int| #[trigger] marker_candidate(gr, sw, sh, px, py, floor, x2, y2)
                ==> (if prefer_left { x2 >= 3 + j } else { x2 < x_end - j }),
        decreases n - j,
    {
        let x = if prefer_left { 3 + j } else { x_end - 1 - j };
        let mut y: usize = 2;
        while y < y_end
            invariant
                gr == grid(tilemap),
                sw == seg.width as int,
                sh == seg.height as int,
                px == placement.x as int,
                py == placement.y as int,
                height == gr.len(),
                width == first_width(gr),
                rows_cover_width(gr),
                placement.x + seg.width <= usize::MAX,
                placement.y + seg.height <= usize::MAX,
                x_end == (if seg.width >= 3 { seg.width - 3 } else { 0 }),
                y_end == (if seg.height >= 2 { seg.height - 2 } else { 0 }),
                n == (if x_end > 3 { x_end - 3 } else { 0 }),
                j < n,
                x == (if prefer_left { 3 + j } else { x_end - 1 - j }),
                2 <= y,
                forall|x2: int, y2: int| #[trigger] marker_candidate(gr, sw, sh, px, py, floor, x2, y2)
                    ==> (if prefer_left { x2 >= 3 + j } else { x2 < x_end - j }) && (x2 == x ==> y2 >= y),
            decreases y_end - y,
        {
            let gx = placement.x + x;
            let gy = placement.y + y;
            if gy < height && gy + 1 < height && gx < width {
                assert(tilemap@[gy as int]@ == gr[gy as int]);
                assert(tilemap@[gy + 1]@ == gr[gy + 1]);
                let tile = tilemap[gy][gx];
                let below = tilemap[gy + 1][gx];
                let ok = if floor { below == '#' || below == '=' || below == '-' } else { below == ' ' };
                if tile == ' ' && ok {
                    assert(marker_candidate(gr, sw, sh, px, py, floor, x as int, y as int));
                    assert(first_marker_candidate(gr, sw, sh, px, py, floor, prefer_left, x as int, y as int));
                    return Some((gx, gy));
                }
            }
            assert(!marker_candidate(gr, sw, sh, px, py, floor, x as int, y as int));
            y = y + 1;
        }
        j = j + 1;
    }
    None
}

/// Finds where to put a marker (spawn or exit) inside a placed segment:
/// away from its edges, preferring the left (`prefer_left`) or right
/// side, on empty space above a floor, else on empty space above empty
/// space. Returns global `(x, y)`.
fn find_valid_marker_position(tilemap: &Vec<Vec<char>>, seg: &ParsedSegment, placement: &SegmentPlacement, height: usize, width: usize, prefer_left: bool) -> (res: Option<(usize, usize)>)
    requires
        height == grid(tilemap).len(),
        width == first_width(grid(tilemap)),
        rows_cover_width(grid(tilemap)),
        placement.x + seg.width <= usize::MAX,
        placement.y + seg.height <= usize::MAX,
    ensures
        match res {
            Some((gx, gy)) => gy + 1 < height && gx < width
                && marker_position(grid(tilemap), seg.width as int, seg.height as int, placement.x as int, placement.y as int, prefer_left) == Some((gx as int, gy as int)),
            None => marker_position(grid(tilemap), seg.width as int, seg.height as int, placement.x as int, placement.y as int, prefer_left) is None,
        },
        res matches Some((gx, gy)) ==> grid(tilemap)[gy as int][gx as int] == ' ',
{
    let ghost gr = grid(tilemap);
    let ghost args = (seg.width as int, seg.height as int, placement.x as int, placement.y as int);
    match marker_pass(tilemap, seg, placement, height, width, prefer_left, true) {
        Some((gx, gy)) => {
            proof {
                let (x, y) = choose|x: int, y: int| {
                    &&& #[trigger] first_marker_candidate(gr, args.0, args.1, args.2, args.3, true, prefer_left, x, y)
                    &&& gx == args.2 + x
                    &&& gy == args.3 + y
                };
                assert(marker_candidate(gr, args.0, args.1, args.2, args.3, true, x, y));
                assert(gr[gy as int][gx as int] == ' ');
                let (cx, cy) = choose|x: int, y: int| first_marker_candidate(gr, args.0, args.1, args.2, args.3, true, prefer_left, x, y);
                lemma_first_marker_unique(gr, args.0, args.1, args.2, args.3, true, prefer_left, x, y, cx, cy);
            }
            Some((gx, gy))
        },
        None => {
            match marker_pass(tilemap, seg, placement, height, width, prefer_left, false) {
                Some((gx, gy)) => {
                    proof {
                        let (x, y) = choose|x: int, y: int| {
                            &&& #[trigger] first_marker_candidate(gr, args.0, args.1, args.2, args.3, false, prefer_left, x, y)
                            &&& gx == args.2 + x
                            &&& gy == args.3 + y
                        };
                        assert(marker_candidate(gr, args.0, args.1, args.2, args.3, false, x, y));
                        assert(gr[gy as int][gx as int] == ' ');
                        let (cx, cy) = choose|x: int, y: int| first_marker_candidate(gr, args.0, args.1, args.2, args.3, false, prefer_left, x, y);
                        lemma_first_marker_unique(gr, args.0, args.1, args.2, args.3, false, prefer_left, x, y, cx, cy);
                    }
                    Some((gx, gy))
                },
                None => None,
            }
        },
    }
}

/// Absolute value.
pub open spec fn abs_int(a: int) -> int {
    if a < 0 { -a } else { a }
}

/// Ring (distance in the maximum norm) of offset `(dx, dy)`.
pub open spec fn ring_of(dx: int, dy: int) -> int {
    if abs_int(dx) >= abs_int(dy) { abs_int(dx) } else { abs_int(dy) }
}

/// `(a0, a1, a2)` comes before `(b0, b1, b2)` in lexicographic order.
pub open spec fn key_before(a0: int, a1: int, a2: int, b0: int, b1: int, b2: int) -> bool {
    a0 < b0 || (a0 == b0 && (a1 < b1 || (a1 == b1 && a2 < b2)))
}

/// Offset `(dx, dy)` from centre `(cx, cy)`, within `rmax` rings, is a
/// fallback marker spot: inside the grid with a row below, on empty
/// space, above a floor or empty space.
pub open spec fn fallback_candidate(gr: Seq<Seq<char>>, cx: int, cy: int, rmax: int, dx: int, dy: int) -> bool {
    let gx = cx + dx;
    let gy = cy + dy;
    &&& ring_of(dx, dy) <= rmax
    &&& 0 <= gx < first_width(gr)
    &&& 0 <= gy && gy + 1 < gr.len()
    &&& gr[gy][gx] == ' '
    &&& (is_floor(gr[gy + 1][gx]) || gr[gy + 1][gx] == ' ')
}

/// `(dx, dy)` is the first fallback spot, searching rings outward and
/// each ring row by row, left to right.
pub open spec fn first_fallback(gr: Seq<Seq<char>>, cx: int, cy: int, rmax: int, dx: int, dy: int) -> bool {
    &&& fallback_candidate(gr, cx, cy, rmax, dx, dy)
    &&& forall|dx2: int, dy2: int| #[trigger] fallback_candidate(gr, cx, cy, rmax, dx2, dy2)
        ==> !key_before(ring_of(dx2, dy2), dy2, dx2, ring_of(dx, dy), dy, dx)
}

/// The global fallback position for a marker around `(cx, cy)`.
pub open spec fn fallback_position(gr: Seq<Seq<char>>, cx: int, cy: int, rmax: int) -> Option<(int, int)> {
    if exists|dx: int, dy: int| #[trigger] fallback_candidate(gr, cx, cy, rmax, dx, dy) {
        let (dx, dy) = choose|dx: int, dy: int| first_fallback(gr, cx, cy, rmax, dx, dy);
        Some((cx + dx, cy + dy))
    } else {
        None
    }
}

/// Two first fallback spots are the same offset.
proof fn lemma_first_fallback_unique(gr: Seq<Seq<char>>, cx: int, cy: int, rmax: int, dx1: int, dy1: int, dx2: int, dy2: int)
    requires
        first_fallback(gr, cx, cy, rmax, dx1, dy1),
        first_fallback(gr, cx, cy, rmax, dx2, dy2),
    ensures
        dx1 == dx2 && dy1 == dy2,
{
    assert(fallback_candidate(gr, cx, cy, rmax, dx1, dy1));
    assert(fallback_candidate(gr, cx, cy, rmax, dx2, dy2));
}

/// Searches rings of growing size around the centre of a placed segment
/// for empty space above a floor or above empty space; returns global
/// `(x, y)`.
fn find_fallback_position(tilemap: &Vec<Vec<char>>, placement: &SegmentPlacement, seg: &ParsedSegment, height: usize, width: usize) -> (res: Option<(usize, usize)>)
    requires
        height == grid(tilemap).len(),
        width == first_width(grid(tilemap)),
        rows_cover_width(grid(tilemap)),
        placement.x + seg.width / 2 + (if seg.width >= seg.height { seg.width } else { seg.height }) / 2 <= i32::MAX,
        placement.y + seg.height / 2 + (if seg.width >= seg.height { seg.width } else { seg.height }) / 2 <= i32::MAX,
    ensures
        match res {
            Some((gx, gy)) => gy + 1 < height && gx < width && fallback_position(grid(tilemap), placement.x + seg.width / 2, placement.y + seg.height / 2,
                ((if seg.width >= seg.height { seg.width } else { seg.height }) / 2) as int) == Some((gx as int, gy as int)),
            None => fallback_position(grid(tilemap), placement.x + seg.width / 2, placement.y + seg.height / 2,
                ((if seg.width >= seg.height { seg.width } else { seg.height }) / 2) as int) is None,
        },
        res matches Some((gx, gy)) ==> grid(tilemap)[gy as int][gx as int] == ' ',
{
    let ghost gr = grid(tilemap);
    let center_x = (placement.x + seg.width / 2) as i64;
    let center_y = (placement.y + seg.height / 2) as i64;
    let rmax = ((if seg.width >= seg.height { seg.width } else { seg.height }) / 2) as i64;
    let ghost (cx, cy, rm) = (center_x as int, center_y as int, rmax as int);
    let mut radius: i64 = 0;
    while radius <= rmax
        invariant
            gr == grid(tilemap),
            height == gr.len(),
            width == first_width(gr),
            rows_cover_width(gr),
            cx == center_x, cy == center_y, rm == rmax,
            cx == placement.x + seg.width / 2, cy == placement.y + seg.height / 2,
            rm == (if seg.width >= seg.height { seg.width } else { seg.height }) / 2,
            0 <= rmax, 0 <= center_x, 0 <= center_y,
            center_x + rmax <= i32::MAX,
            center_y + rmax <= i32::MAX,
            0 <= radius <= rmax + 1,
            forall|dx2: int, dy2: int| #[trigger] fallback_candidate(gr, cx, cy, rm, dx2, dy2) ==> ring_of(dx2, dy2) >= radius,
        decreases rmax + 1 - radius,
    {
        let mut dy: i64 = -radius;
        while dy <= radius
            invariant
                gr == grid(tilemap),
                height == gr.len(),
                width == first_width(gr),
                rows_cover_width(gr),
                cx == center_x, cy == center_y, rm == rmax,
                cx == placement.x + seg.width / 2, cy == placement.y + seg.height / 2,
                rm == (if seg.width >= seg.height { seg.width } else { seg.height }) / 2,
                0 <= rmax, 0 <= center_x, 0 <= center_y,
                center_x + rmax <= i32::MAX,
                center_y + rmax <= i32::MAX,
                0 <= radius <= rmax,
                -radius <= dy <= radius + 1,
                forall|dx2: int, dy2: int| #[trigger] fallback_candidate(gr, cx, cy, rm, dx2, dy2)
                    ==> !key_before(ring_of(dx2, dy2), dy2, dx2, radius as int, dy as int, -radius),
            decreases radius + 1 - dy,
        {
            let mut dx: i64 = -radius;
            while dx <= radius
                invariant
                    gr == grid(tilemap),
                    height == gr.len(),
                    width == first_width(gr),
                    rows_cover_width(gr),
                    cx == center_x, cy == center_y, rm == rmax,
                    cx == placement.x + seg.width / 2, cy == placement.y + seg.height / 2,
                    rm == (if seg.width >= seg.height { seg.width } else { seg.height }) / 2,
                    0 <= rmax, 0 <= center_x, 0 <= center_y,
                    center_x + rmax <= i32::MAX,
                    center_y + rmax <= i32::MAX,
                    0 <= radius <= rmax,
                    -radius <= dy <= radius,
                    -radius <= dx <= radius + 1,
                    forall|dx2: int, dy2: int| #[trigger] fallback_candidate(gr, cx, cy, rm, dx2, dy2)
                        ==> !key_before(ring_of(dx2, dy2), dy2, dx2, radius as int, dy as int, dx as int),
                decreases radius + 1 - dx,
            {
                let adx = if dx < 0 { -dx } else { dx };
                let ady = if dy < 0 { -dy } else { dy };
                if radius > 0 && adx != radius && ady != radius {
                    assert(ring_of(dx as int, dy as int) < radius);
                } else {
                    let gx_signed = center_x + dx;
                    let gy_signed = center_y + dy;
                    if gx_signed >= 0 && gy_signed >= 0 {
                        let gx = gx_signed as usize;
                        let gy = gy_signed as usize;
                        if gy < height && gy + 1 < height && gx < width {
                            assert(tilemap@[gy as int]@ == gr[gy as int]);
                            assert(tilemap@[gy + 1]@ == gr[gy + 1]);
                            let tile = tilemap[gy][gx];
                            let below = tilemap[gy + 1][gx];
                            if tile == ' ' && (below == '#' || below == '=' || below == '-' || below == ' ') {
                                assert(fallback_candidate(gr, cx, cy, rm, dx as int, dy as int));
                                assert(first_fallback(gr, cx, cy, rm, dx as int, dy as int));
                                proof {
                                    let (ex, ey) = choose|dx: int, dy: int| first_fallback(gr, cx, cy, rm, dx, dy);
                                    lemma_first_fallback_unique(gr, cx, cy, rm, dx as int, dy as int, ex, ey);
                                }
                                return Some((gx, gy));
                            }
                        }
                    }
                    assert(!fallback_candidate(gr, cx, cy, rm, dx as int, dy as int));
                }
                dx = dx + 1;
            }
            dy = dy + 1;
        }
        radius = radius + 1;
    }
    None
}

/// The grid holds the tile `ch` somewhere.
pub open spec fn has_tile(gr: Seq<Seq<char>>, ch: char) -> bool {
    exists|r: int, c: int| 0 <= r < gr.len() && 0 <= c < gr[r].len() && #[trigger] gr[r][c] == ch
}

/// `gr` with marker `ch` at global `(x, y)`, and a platform right below
/// it where that tile is empty space.
pub open spec fn place_marker(gr: Seq<Seq<char>>, pos: (int, int), ch: char) -> Seq<Seq<char>> {
    let (x, y) = pos;
    let g1 = set_cell(gr, y, x, ch);
    if y + 1 < gr.len() && g1[y + 1][x] == ' ' { set_cell(g1, y + 1, x, '_') } else { g1 }
}

/// The other marker: the exit for the spawn and the spawn for the exit.
pub open spec fn other_marker(ch: char) -> char {
    if ch == 'P' { '>' } else { 'P' }
}

/// The segment's centre cell lies in the grid, whose rows are at least
/// two tiles wide.
pub open spec fn marker_room(gr: Seq<Seq<char>>, seg: &ParsedSegment, pl: &SegmentPlacement) -> bool {
    let w = first_width(gr) as int;
    &&& pl.y + seg.height / 2 < gr.len()
    &&& pl.x + seg.width / 2 < w
    &&& w >= 2
}

/// Where a marker goes when no search finds a spot: the segment's centre
/// cell, or, when that holds the other marker, the cell to its right (to
/// its left at the grid's right edge).
pub open spec fn forced_position(gr: Seq<Seq<char>>, seg: &ParsedSegment, pl: &SegmentPlacement, ch: char) -> Option<(int, int)> {
    let cx = pl.x + seg.width / 2;
    let cy = pl.y + seg.height / 2;
    let w = first_width(gr) as int;
    if marker_room(gr, seg, pl) {
        if gr[cy][cx] != other_marker(ch) {
            Some((cx, cy))
        } else if cx + 1 < w {
            Some((cx + 1, cy))
        } else {
            Some((cx - 1, cy))
        }
    } else {
        None
    }
}

/// Ensures marker `ch` appears: if it is missing, it is placed in the
/// given segment (the first spot found, else the first fallback spot,
/// else the forced spot at the segment's centre).
pub open spec fn marker_step(gr: Seq<Seq<char>>, seg: &ParsedSegment, pl: &SegmentPlacement, ch: char, prefer_left: bool) -> Seq<Seq<char>> {
    if has_tile(gr, ch) {
        gr
    } else {
        match marker_position(gr, seg.width as int, seg.height as int, pl.x as int, pl.y as int, prefer_left) {
            Some(p) => place_marker(gr, p, ch),
            None => {
                let rmax = (if seg.width >= seg.height { seg.width } else { seg.height }) / 2;
                match fallback_position(gr, pl.x + seg.width / 2, pl.y + seg.height / 2, rmax as int) {
                    Some(p) => place_marker(gr, p, ch),
                    None => match forced_position(gr, seg, pl, ch) {
                        Some(p) => place_marker(gr, p, ch),
                        None => gr,
                    },
                }
            },
        }
    }
}

/// A placed segment's position and size stay within the arithmetic the
/// marker search uses.
pub open spec fn marker_search_fits(seg: &ParsedSegment, pl: &SegmentPlacement) -> bool {
    let big = if seg.width >= seg.height { seg.width } else { seg.height };
    &&& pl.x + seg.width <= usize::MAX
    &&& pl.y + seg.height <= usize::MAX
    &&& pl.x + seg.width / 2 + big / 2 <= i32::MAX
    &&& pl.y + seg.height / 2 + big / 2 <= i32::MAX
}

/// Whether the grid holds the tile `ch`.
fn has_marker(tilemap: &Vec<Vec<char>>, ch: char) -> (found: bool)
    ensures
        found == has_tile(grid(tilemap), ch),
{
    let ghost gr = grid(tilemap);
    let height = tilemap.len();
    let mut found = false;
    let mut r: usize = 0;
    while r < height && !found
        invariant
            gr == grid(tilemap),
            height == gr.len(),
            r <= height,
            found ==> has_tile(gr, ch),
            !found ==> forall|rr: int, c: int| 0 <= rr < r && 0 <= c < gr[rr].len() ==> #[trigger] gr[rr][c] != ch,
        decreases height - r + (if found { 0int } else { 1int }),
    {
        let row = &tilemap[r];
        let n = row.len();
        let mut c: usize = 0;
        while c < n && !found
            invariant
                gr == grid(tilemap),
                height == gr.len(),
                r < height,
                row@ == gr[r as int],
                n == row@.len(),
                c <= n,
                found ==> has_tile(gr, ch),
                !found ==> forall|rr: int, cc: int| 0 <= rr < r && 0 <= cc < gr[rr].len() ==> #[trigger] gr[rr][cc] != ch,
                !found ==> forall|cc: int| 0 <= cc < c ==> #[trigger] gr[r as int][cc] != ch,
            decreases n - c + (if found { 0int } else { 1int }),
        {
            if row[c] == ch {
                assert(gr[r as int][c as int] == ch);
                found = true;
            } else {
                c = c + 1;
            }
        }
        if !found {
            r = r + 1;
        }
    }
    found
}

/// The forced spot for marker `ch`, as `forced_position` says.
fn forced_spot(tilemap: &Vec<Vec<char>>, seg: &ParsedSegment, placement: &SegmentPlacement, ch: char, height: usize, width: usize) -> (res: Option<(usize, usize)>)
    requires
        height == grid(tilemap).len(),
        width == first_width(grid(tilemap)),
        rows_cover_width(grid(tilemap)),
        marker_search_fits(seg, placement),
    ensures
        match forced_position(grid(tilemap), seg, placement, ch) {
            Some(p) => res == Some((p.0 as usize, p.1 as usize)) && 0 <= p.0 < width && 0 <= p.1 < height,
            None => res is None,
        },
{
    let ghost gr = grid(tilemap);
    let cx = placement.x + seg.width / 2;
    let cy = placement.y + seg.height / 2;
    if cy < height && cx < width && width >= 2 {
        assert(tilemap@[cy as int]@ == gr[cy as int]);
        let other = if ch == 'P' { '>' } else { 'P' };
        if tilemap[cy][cx] != other {
            Some((cx, cy))
        } else if cx + 1 < width {
            Some((cx + 1, cy))
        } else {
            Some((cx - 1, cy))
        }
    } else {
        None
    }
}

/// Places marker `ch` if the grid lacks it. It then holds `ch` whenever the
/// segment's centre lies in a grid at least two tiles wide, and it keeps
/// the other marker if it had one.
fn ensure_marker(tilemap: &mut Vec<Vec<char>>, seg: &ParsedSegment, placement: &SegmentPlacement, ch: char, prefer_left: bool)
    requires
        ch == 'P' || ch == '>',
        !has_tile(grid(old(tilemap)), ch) ==> rows_cover_width(grid(old(tilemap))) && marker_search_fits(seg, placement),
    ensures
        grid(final(tilemap)) == marker_step(grid(old(tilemap)), seg, placement, ch, prefer_left),
        rows_cover_width(grid(old(tilemap))) ==> rows_cover_width(grid(final(tilemap))),
        same_shape(grid(old(tilemap)), grid(final(tilemap))),
        has_tile(grid(old(tilemap)), ch) || marker_room(grid(old(tilemap)), seg, placement) ==> has_tile(grid(final(tilemap)), ch),
        has_tile(grid(old(tilemap)), other_marker(ch)) ==> has_tile(grid(final(tilemap)), other_marker(ch)),
{
    let ghost gr = grid(tilemap);
    let ghost other = other_marker(ch);
    let height = tilemap.len();
    let width = if height > 0 { tilemap[0].len() } else { 0 };
    assert(width == first_width(gr));
    let found = has_marker(tilemap, ch);
    if found {
        return;
    }
    assert(!has_tile(gr, ch));
    let pos = match find_valid_marker_position(tilemap, seg, placement, height, width, prefer_left) {
        Some(p) => Some(p),
        None => match find_fallback_position(tilemap, placement, seg, height, width) {
            Some(p) => Some(p),
            None => forced_spot(tilemap, seg, placement, ch, height, width),
        },
    };
    // A cell holding the other marker that no write touches.
    let ghost keep: (int, int) = (-1, -1);
    if let Some((gx, gy)) = pos {
        proof {
            if has_tile(gr, other) {
                let (r, c) = choose|r: int, c: int| 0 <= r < gr.len() && 0 <= c < gr[r].len() && #[trigger] gr[r][c] == other;
                let cx = placement.x + seg.width / 2;
                let cy = placement.y + seg.height / 2;
                if gr[gy as int][gx as int] == other {
                    assert(gx as int != cx && gy as int == cy && gr[cy][cx] == other);
                    keep = (cy, cx);
                } else {
                    keep = (r, c);
                }
            }
        }
        assert(tilemap@[gy as int]@ == gr[gy as int]);
        write_cell(tilemap, gy, gx, ch);
        if gy + 1 < height {
            assert(tilemap@[gy + 1]@ == grid(tilemap)[gy + 1]);
            if tilemap[gy + 1][gx] == ' ' {
                write_cell(tilemap, gy + 1, gx, '_');
            }
        }
        assert(grid(tilemap)[gy as int][gx as int] == ch);
        proof {
            if has_tile(gr, other) {
                assert(grid(tilemap)[keep.0][keep.1] == other);
            }
        }
    }
    assert(rows_cover_width(grid(tilemap)));
}

/// Makes sure the level has a spawn (`P`) in its first segment and an exit
/// (`>`) in its last one: a missing marker goes on empty space above a
/// floor, away from the segment's edges (spawn toward the left, exit
/// toward the right), else above empty space, else on the nearest such
/// spot around the segment's centre, else on the segment's centre cell
/// itself (or its neighbour, when that holds the other marker); a platform
/// is added under it when the tile below is empty. Afterwards the level
/// has a spawn and an exit whenever the first and last segments' centres
/// lie in a grid at least two tiles wide. With no segments or placements
/// nothing changes.
pub fn ensure_spawn_exit(tilemap: &mut Vec<Vec<char>>, segments: &Vec<ParsedSegment>, _max_height: usize, placements: &Vec<SegmentPlacement>)
    requires
        segments@.len() > 0 && placements@.len() > 0 && !has_tile(grid(old(tilemap)), 'P')
            ==> rows_cover_width(grid(old(tilemap))) && marker_search_fits(&segments@[0], &placements@[0]),
        segments@.len() > 0 && placements@.len() > 0
            && !has_tile(marker_step(grid(old(tilemap)), &segments@[0], &placements@[0], 'P', true), '>')
            ==> rows_cover_width(grid(old(tilemap))) && placements@.len() >= segments@.len()
                && marker_search_fits(&segments@[segments@.len() - 1], &placements@[segments@.len() - 1]),
    ensures
        grid(final(tilemap)) == if segments@.len() == 0 || placements@.len() == 0 {
            grid(old(tilemap))
        } else {
            marker_step(
                marker_step(grid(old(tilemap)), &segments@[0], &placements@[0], 'P', true),
                &segments@[segments@.len() - 1], &placements@[segments@.len() - 1], '>', false)
        },
        same_shape(grid(old(tilemap)), grid(final(tilemap))),
        segments@.len() > 0 && placements@.len() > 0
            && (has_tile(grid(old(tilemap)), 'P') || marker_room(grid(old(tilemap)), &segments@[0], &placements@[0]))
            ==> has_tile(grid(final(tilemap)), 'P'),
        segments@.len() > 0 && placements@.len() >= segments@.len()
            && (has_tile(grid(old(tilemap)), '>')
                || marker_room(grid(old(tilemap)), &segments@[segments@.len() - 1], &placements@[segments@.len() - 1]))
            ==> has_tile(grid(final(tilemap)), '>'),
{
    if segments.len() == 0 || placements.len() == 0 {
        return;
    }
    let ghost g0 = grid(tilemap);
    ensure_marker(tilemap, &segments[0], &placements[0], 'P', true);
    let ghost g1 = grid(tilemap);
    assert(first_width(g1) == first_width(g0)) by {
        if g0.len() > 0 {
            assert(g1[0].len() == g0[0].len());
        }
    }
    let last = segments.len() - 1;
    if has_marker(tilemap, '>') {
        return;
    }
    assert(last < placements@.len());
    ensure_marker(tilemap, &segments[last], &placements[last], '>', false);
}

} // verus!
