//! Tile grids: rows of characters, row-major.

use vstd::prelude::*;

verus! {

/// The characters of a grid, row by row.
pub open spec fn grid(g: &Vec<Vec<char>>) -> Seq<Seq<char>> {
    Seq::new(g@.len(), |r: int| g@[r]@)
}

/// `gr` with the cell at row `r`, column `c` replaced by `ch`; unchanged
/// where that cell does not exist.
pub open spec fn set_cell(gr: Seq<Seq<char>>, r: int, c: int, ch: char) -> Seq<Seq<char>> {
    if 0 <= r < gr.len() && 0 <= c < gr[r].len() {
        gr.update(r, gr[r].update(c, ch))
    } else {
        gr
    }
}

/// Writes one cell that exists.
pub fn write_cell(g: &mut Vec<Vec<char>>, r: usize, c: usize, ch: char)
    requires
        r < old(g)@.len(),
        c < old(g)@[r as int]@.len(),
    ensures
        grid(final(g)) == set_cell(grid(old(g)), r as int, c as int, ch),
        final(g)@.len() == old(g)@.len(),
{
    g[r][c] = ch;
    proof {
        assert(grid(g) =~= set_cell(grid(old(g)), r as int, c as int, ch));
    }
}

/// Appends a row at the bottom.
pub fn push_row(g: &mut Vec<Vec<char>>, row: Vec<char>)
    ensures
        grid(final(g)) == grid(old(g)).push(row@),
{
    let ghost prev = grid(g);
    g.push(row);
    assert(grid(g) =~= prev.push(row@));
}

/// `a - b`, or zero when `b > a`.
pub open spec fn sat_sub(a: int, b: int) -> int {
    if a >= b { a - b } else { 0 }
}

/// The smaller of two integers.
pub open spec fn min_int(a: int, b: int) -> int {
    if a <= b { a } else { b }
}

/// `b` has the same rows as `a`, each of the same length.
pub open spec fn same_shape(a: Seq<Seq<char>>, b: Seq<Seq<char>>) -> bool {
    &&& a.len() == b.len()
    &&& forall|r: int| 0 <= r < a.len() ==> #[trigger] b[r].len() == a[r].len()
}

/// Width of a grid: the length of its first row, zero when it has none.
pub open spec fn first_width(gr: Seq<Seq<char>>) -> nat {
    if gr.len() > 0 { gr[0].len() } else { 0 }
}

/// Copies `row[lo..hi]`.
pub fn copy_range(row: &Vec<char>, lo: usize, hi: usize) -> (r: Vec<char>)
    requires
        lo <= hi <= row@.len(),
    ensures
        r@ == row@.subrange(lo as int, hi as int),
{
    let mut r: Vec<char> = Vec::new();
    let mut i = lo;
    while i < hi
        invariant
            lo <= i <= hi,
            hi <= row@.len(),
            r@ == row@.subrange(lo as int, i as int),
        decreases hi - i,
    {
        r.push(row[i]);
        i = i + 1;
        assert(r@ =~= row@.subrange(lo as int, i as int));
    }
    r
}

/// A copy of a whole grid.
pub fn clone_grid(g: &Vec<Vec<char>>) -> (r: Vec<Vec<char>>)
    ensures
        grid(&r) == grid(g),
{
    let mut r: Vec<Vec<char>> = Vec::new();
    let n = g.len();
    let mut i: usize = 0;
    while i < n
        invariant
            n == g@.len(),
            i <= n,
            grid(&r) == grid(g).subrange(0, i as int),
        decreases n - i,
    {
        let row = copy_range(&g[i], 0, g[i].len());
        assert(row@ =~= g@[i as int]@);
        push_row(&mut r, row);
        i = i + 1;
        assert(grid(&r) =~= grid(g).subrange(0, i as int));
    }
    assert(grid(g).subrange(0, n as int) =~= grid(g));
    r
}

} // verus!
