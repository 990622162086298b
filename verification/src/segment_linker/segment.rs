//! Parsed segments and their placement in a combined level.

use vstd::prelude::*;
use crate::level::visuals::{cuts_inside_char, find_tilemap_start, tilemap_start};
use crate::segment_linker::corridors::lex_before;
use crate::segment_linker::grid::{grid, push_row, set_cell, write_cell};
use crate::text::{copy_chars, lines_of, longest_row, max_row_len, split_lines, str_chars, trim_chars, trim_ws};

verus! {

/// Where a segment sits in the combined level.
#[derive(Clone, Debug)]
pub struct SegmentPlacement {
    /// Index into the parsed segments.
    pub segment_idx: usize,
    /// Column of the segment's left edge, in tiles.
    pub x: usize,
    /// Row of the segment's top edge, in tiles.
    pub y: usize,
}

/// A segment read from level text, ready for linking.
pub struct ParsedSegment {
    /// Segment name.
    pub name: String,
    /// Tile grid, row-major.
    pub tiles: Vec<Vec<char>>,
    /// Width in tiles (the longest row when parsed).
    pub width: usize,
    /// Height in tiles.
    pub height: usize,
    /// Spawn marker position `(x, y)`, if any.
    pub spawn_pos: Option<(usize, usize)>,
    /// Exit marker position `(x, y)`, if any.
    pub exit_pos: Option<(usize, usize)>,
}

/// A level of the pool as the linker reads it: its name and its text.
pub struct PooledLevel {
    /// Level name.
    pub name: String,
    /// Level text: an optional header, a `---` line, then the tilemap.
    pub content: String,
}

/// The tilemap rows of level content: the part after the header,
/// without white space at either end, split into lines.
pub open spec fn content_rows(content: Seq<char>) -> Seq<Seq<char>> {
    lines_of(trim_ws(content.subrange(tilemap_start(content), content.len() as int)))
}

/// Row `y` of `gr` holds `ch` at column `x`.
pub open spec fn has_char_at(gr: Seq<Seq<char>>, ch: char, x: int, y: int) -> bool {
    0 <= y < gr.len() && 0 <= x < gr[y].len() && gr[y][x] == ch
}

/// Position `(x, y)` of the last `ch` in `gr`, reading rows top to bottom
/// and each row left to right.
pub open spec fn last_marker(gr: Seq<Seq<char>>, ch: char) -> Option<(usize, usize)> {
    if exists|x: int, y: int| #[trigger] has_char_at(gr, ch, x, y) {
        let (x, y) = choose|x: int, y: int| #[trigger] has_char_at(gr, ch, x, y)
            && forall|x2: int, y2: int| #[trigger] has_char_at(gr, ch, x2, y2) ==> !lex_before(y, x, y2, x2);
        Some((x as usize, y as usize))
    } else {
        None
    }
}

/// The segment read from a level whose tilemap has rows: its name, the
/// rows as tiles, the longest row's length as width, the row count as
/// height, and the last spawn (`P`) and exit (`>`) markers.
pub open spec fn parses_to(level: &PooledLevel, seg: &ParsedSegment) -> bool {
    let rows = content_rows(level.content@);
    &&& rows.len() > 0
    &&& seg.name@ == level.name@
    &&& seg.tile_grid() == rows
    &&& seg.width == max_row_len(rows)
    &&& seg.height == rows.len()
    &&& seg.spawn_pos == last_marker(rows, 'P')
    &&& seg.exit_pos == last_marker(rows, '>')
}

/// The last `ch` found by a scan is `last_marker`.
proof fn lemma_last_marker(gr: Seq<Seq<char>>, ch: char, found: Option<(usize, usize)>)
    requires
        match found {
            Some((x, y)) => has_char_at(gr, ch, x as int, y as int)
                && forall|x2: int, y2: int| #[trigger] has_char_at(gr, ch, x2, y2) ==> !lex_before(y as int, x as int, y2, x2),
            None => forall|x2: int, y2: int| !#[trigger] has_char_at(gr, ch, x2, y2),
        },
    ensures
        found == last_marker(gr, ch),
{
    match found {
        Some((x, y)) => {
            assert(has_char_at(gr, ch, x as int, y as int));
            let (cx, cy) = choose|cx: int, cy: int| #[trigger] has_char_at(gr, ch, cx, cy)
                && forall|x2: int, y2: int| #[trigger] has_char_at(gr, ch, x2, y2) ==> !lex_before(cy, cx, y2, x2);
            assert(!lex_before(y as int, x as int, cy, cx));
            assert(!lex_before(cy, cx, y as int, x as int));
        },
        None => {},
    }
}

/// After reading every position before `(x, y)` (row by row), `found`
/// is the last `ch` read, if any.
pub open spec fn scanned_last(gr: Seq<Seq<char>>, ch: char, found: Option<(usize, usize)>, y: int, x: int) -> bool {
    match found {
        Some((fx, fy)) => has_char_at(gr, ch, fx as int, fy as int) && lex_before(fy as int, fx as int, y, x)
            && forall|x2: int, y2: int| #[trigger] has_char_at(gr, ch, x2, y2) && lex_before(y2, x2, y, x)
                ==> !lex_before(fy as int, fx as int, y2, x2),
        None => forall|x2: int, y2: int| #[trigger] has_char_at(gr, ch, x2, y2) ==> !lex_before(y2, x2, y, x),
    }
}

/// Reading to the end of row `y` is reading up to the start of row `y + 1`.
proof fn lemma_scanned_row(gr: Seq<Seq<char>>, ch: char, found: Option<(usize, usize)>, y: int)
    requires
        0 <= y < gr.len(),
        scanned_last(gr, ch, found, y, gr[y].len() as int),
    ensures
        scanned_last(gr, ch, found, y + 1, 0),
{
    assert forall|x2: int, y2: int| #[trigger] has_char_at(gr, ch, x2, y2)
        implies (lex_before(y2, x2, y + 1, 0) <==> lex_before(y2, x2, y, gr[y].len() as int)) by {}
}

/// Finds the last spawn and exit markers in the tiles.
fn scan_markers(tiles: &Vec<Vec<char>>) -> (res: (Option<(usize, usize)>, Option<(usize, usize)>))
    ensures
        res.0 == last_marker(grid(tiles), 'P'),
        res.1 == last_marker(grid(tiles), '>'),
        res.0 matches Some((x, y)) ==> y < tiles@.len(),
        res.1 matches Some((x, y)) ==> y < tiles@.len(),
{
    let ghost gr = grid(tiles);
    let mut spawn: Option<(usize, usize)> = None;
    let mut exit: Option<(usize, usize)> = None;
    let h = tiles.len();
    let mut y: usize = 0;
    while y < h
        invariant
            h == gr.len(),
            gr == grid(tiles),
            y <= h,
            scanned_last(gr, 'P', spawn, y as int, 0),
            scanned_last(gr, '>', exit, y as int, 0),
        decreases h - y,
    {
        let row = &tiles[y];
        let w = row.len();
        assert(row@ == gr[y as int]);
        let mut x: usize = 0;
        while x < w
            invariant
                h == gr.len(),
                gr == grid(tiles),
                y < h,
                row@ == gr[y as int],
                w == row@.len(),
                x <= w,
                scanned_last(gr, 'P', spawn, y as int, x as int),
                scanned_last(gr, '>', exit, y as int, x as int),
            decreases w - x,
        {
            let c = row[x];
            if c == 'P' {
                spawn = Some((x, y));
            } else if c == '>' {
                exit = Some((x, y));
            }
            x = x + 1;
        }
        proof {
            lemma_scanned_row(gr, 'P', spawn, y as int);
            lemma_scanned_row(gr, '>', exit, y as int);
        }
        y = y + 1;
    }
    proof {
        lemma_last_marker(gr, 'P', spawn);
        lemma_last_marker(gr, '>', exit);
    }
    (spawn, exit)
}

/// A row of `n` copies of `ch`.
pub open spec fn repeat_char(ch: char, n: nat) -> Seq<char> {
    Seq::new(n, |_i: int| ch)
}

/// The tile a segment reports at `(x, y)`: the cell, or a wall outside the grid.
pub open spec fn tile_at(gr: Seq<Seq<char>>, x: int, y: int) -> char {
    if 0 <= y < gr.len() && 0 <= x < gr[y].len() {
        gr[y][x]
    } else {
        '#'
    }
}

/// `gr` with the marker at `pos` blanked, where the cell exists.
pub open spec fn blank_marker(gr: Seq<Seq<char>>, pos: Option<(usize, usize)>) -> Seq<Seq<char>> {
    match pos {
        Some((x, y)) => set_cell(gr, y as int, x as int, ' '),
        None => gr,
    }
}

/// `row` padded with walls up to `width` characters.
pub open spec fn pad_row(row: Seq<char>, width: nat) -> Seq<char> {
    if row.len() < width {
        row + repeat_char('#', (width - row.len()) as nat)
    } else {
        row
    }
}

/// A marker moved down by `dy` rows.
pub open spec fn shift_marker(pos: Option<(usize, usize)>, dy: int) -> Option<(usize, usize)> {
    match pos {
        Some((x, y)) => Some((x, (y + dy) as usize)),
        None => None,
    }
}

/// Builds a row of `n` copies of `ch`.
pub fn filled_row(ch: char, n: usize) -> (row: Vec<char>)
    ensures
        row@ == repeat_char(ch, n as nat),
{
    let mut row: Vec<char> = Vec::new();
    let mut i: usize = 0;
    while i < n
        invariant
            i <= n,
            row@ == repeat_char(ch, i as nat),
        decreases n - i,
    {
        row.push(ch);
        i = i + 1;
        assert(row@ =~= repeat_char(ch, i as nat));
    }
    row
}

/// A copy of a row.
pub fn clone_row(v: &Vec<char>) -> (r: Vec<char>)
    ensures
        r@ == v@,
{
    let r = v.clone();
    assert(r@ =~= v@);
    r
}

impl ParsedSegment {
    /// The segment's tiles as character rows.
    pub open spec fn tile_grid(&self) -> Seq<Seq<char>> {
        grid(&self.tiles)
    }

    /// Reads a segment from a pool level: the tilemap after the header
    /// (after the first `\n---\n`, else after a leading `---` and the
    /// character that follows it, else the whole text), trimmed of white
    /// space and split into rows. `None` when that leaves no rows.
    pub fn from_pooled_level(level: &PooledLevel) -> (res: Option<ParsedSegment>)
        requires
            !cuts_inside_char(level.content@),
        ensures
            match res {
                Some(seg) => parses_to(level, &seg),
                None => content_rows(level.content@).len() == 0,
            },
            res matches Some(seg) ==> (seg.spawn_pos matches Some((x, y)) ==> y < seg.height),
            res matches Some(seg) ==> (seg.exit_pos matches Some((x, y)) ==> y < seg.height),
    {
        let s = str_chars(level.content.as_str());
        let start = find_tilemap_start(&s);
        let body = copy_chars(&s, start, s.len());
        let t = trim_chars(&body);
        if t.len() == 0 {
            proof {
                assert(lines_of(t@) =~= Seq::<Seq<char>>::empty());
            }
            return None;
        }
        let tiles = split_lines(&t);
        if tiles.len() == 0 {
            return None;
        }
        assert(grid(&tiles) =~= content_rows(level.content@));
        let height = tiles.len();
        let width = longest_row(&tiles);
        assert(Seq::new(tiles@.len(), |i: int| tiles@[i]@) =~= grid(&tiles));
        let (spawn_pos, exit_pos) = scan_markers(&tiles);
        Some(ParsedSegment {
            name: level.name.clone(),
            tiles,
            width,
            height,
            spawn_pos,
            exit_pos,
        })
    }

    /// Removes the spawn marker: its cell becomes empty space (where the
    /// cell exists) and the segment no longer has a spawn position.
    pub fn strip_spawn(&mut self)
        ensures
            final(self).tile_grid() == blank_marker(old(self).tile_grid(), old(self).spawn_pos),
            final(self).spawn_pos is None,
            final(self).name == old(self).name,
            final(self).width == old(self).width,
            final(self).height == old(self).height,
            final(self).exit_pos == old(self).exit_pos,
    {
        if let Some((x, y)) = self.spawn_pos {
            if y < self.tiles.len() && x < self.tiles[y].len() {
                write_cell(&mut self.tiles, y, x, ' ');
            }
            self.spawn_pos = None;
        }
    }

    /// Removes the exit marker: its cell becomes empty space (where the
    /// cell exists) and the segment no longer has an exit position.
    pub fn strip_exit(&mut self)
        ensures
            final(self).tile_grid() == blank_marker(old(self).tile_grid(), old(self).exit_pos),
            final(self).exit_pos is None,
            final(self).name == old(self).name,
            final(self).width == old(self).width,
            final(self).height == old(self).height,
            final(self).spawn_pos == old(self).spawn_pos,
    {
        if let Some((x, y)) = self.exit_pos {
            if y < self.tiles.len() && x < self.tiles[y].len() {
                write_cell(&mut self.tiles, y, x, ' ');
            }
            self.exit_pos = None;
        }
    }

    /// The tile at `(x, y)`; outside the grid every tile is a wall.
    pub fn get_tile(&self, x: usize, y: usize) -> (t: char)
        ensures
            t == tile_at(self.tile_grid(), x as int, y as int),
    {
        if y < self.tiles.len() && x < self.tiles[y].len() {
            self.tiles[y][x]
        } else {
            '#'
        }
    }

    /// Pads every row shorter than `width` with walls up to `width`.
    pub fn normalize_width(&mut self)
        ensures
            final(self).tile_grid().len() == old(self).tile_grid().len(),
            forall|r: int| 0 <= r < old(self).tile_grid().len()
                ==> #[trigger] final(self).tile_grid()[r] == pad_row(old(self).tile_grid()[r], old(self).width as nat),
            final(self).name == old(self).name,
            final(self).width == old(self).width,
            final(self).height == old(self).height,
            final(self).spawn_pos == old(self).spawn_pos,
            final(self).exit_pos == old(self).exit_pos,
    {
        let ghost old_grid = self.tile_grid();
        let width = self.width;
        let n = self.tiles.len();
        let mut r: usize = 0;
        while r < n
            invariant
                n == self.tiles@.len(),
                n == old_grid.len(),
                r <= n,
                width == self.width,
                self.name == old(self).name,
                self.height == old(self).height,
                self.spawn_pos == old(self).spawn_pos,
                self.exit_pos == old(self).exit_pos,
                forall|k: int| 0 <= k < r ==> #[trigger] self.tiles@[k]@ == pad_row(old_grid[k], width as nat),
                forall|k: int| r <= k < n ==> #[trigger] self.tiles@[k]@ == old_grid[k],
            decreases n - r,
        {
            while self.tiles[r].len() < width
                invariant
                    n == self.tiles@.len(),
                    r < n,
                    width == self.width,
                    self.name == old(self).name,
                    self.height == old(self).height,
                    self.spawn_pos == old(self).spawn_pos,
                    self.exit_pos == old(self).exit_pos,
                    forall|k: int| 0 <= k < r ==> #[trigger] self.tiles@[k]@ == pad_row(old_grid[k], width as nat),
                    forall|k: int| r < k < n ==> #[trigger] self.tiles@[k]@ == old_grid[k],
                    old_grid[r as int].len() <= self.tiles@[r as int]@.len(),
                    self.tiles@[r as int]@ == old_grid[r as int] + repeat_char('#', (self.tiles@[r as int]@.len() - old_grid[r as int].len()) as nat),
                    self.tiles@[r as int]@.len() <= width || self.tiles@[r as int]@ == old_grid[r as int],
                decreases width - self.tiles@[r as int]@.len(),
            {
                let ghost before = self.tiles@[r as int]@;
                self.tiles[r].push('#');
                assert(self.tiles@[r as int]@ =~= old_grid[r as int] + repeat_char('#', (self.tiles@[r as int]@.len() - old_grid[r as int].len()) as nat));
            }
            assert(self.tiles@[r as int]@ =~= pad_row(old_grid[r as int], width as nat));
            r = r + 1;
        }
        assert(self.tile_grid() =~= Seq::new(n as nat, |k: int| pad_row(old_grid[k], width as nat)));
    }

    /// Pads the segment to `min_height` rows when it is shorter: half of
    /// the missing rows (rounded down) become wall rows on top, the rest
    /// wall rows at the bottom, and the markers move down with the tiles.
    pub fn pad_to_min_height(&mut self, min_height: usize)
        requires
            old(self).height < min_height ==> (old(self).spawn_pos matches Some((x, y))
                ==> y + (min_height - old(self).height) / 2 <= usize::MAX),
            old(self).height < min_height ==> (old(self).exit_pos matches Some((x, y))
                ==> y + (min_height - old(self).height) / 2 <= usize::MAX),
        ensures
            old(self).height >= min_height ==> *final(self) == *old(self),
            old(self).height < min_height ==> {
                let top = (min_height - old(self).height) / 2;
                let bottom = (min_height - old(self).height) - top;
                let wall = repeat_char('#', old(self).width as nat);
                &&& final(self).tile_grid() == Seq::new(top as nat, |_i: int| wall)
                    + old(self).tile_grid() + Seq::new(bottom as nat, |_i: int| wall)
                &&& final(self).height == min_height
                &&& final(self).width == old(self).width
                &&& final(self).name == old(self).name
                &&& final(self).spawn_pos == shift_marker(old(self).spawn_pos, top)
                &&& final(self).exit_pos == shift_marker(old(self).exit_pos, top)
            },
    {
        if self.height >= min_height {
            return;
        }
        let rows_to_add = min_height - self.height;
        let top_rows = rows_to_add / 2;
        let bottom_rows = rows_to_add - top_rows;
        let wall_row: Vec<char> = filled_row('#', self.width);
        let ghost wall = repeat_char('#', self.width as nat);
        let ghost old_grid = self.tile_grid();

        let mut new_tiles: Vec<Vec<char>> = Vec::new();
        let mut i: usize = 0;
        while i < top_rows
            invariant
                i <= top_rows,
                wall_row@ == wall,
                grid(&new_tiles) == Seq::new(i as nat, |_k: int| wall),
            decreases top_rows - i,
        {
            push_row(&mut new_tiles, clone_row(&wall_row));
            i = i + 1;
            assert(grid(&new_tiles) =~= Seq::new(i as nat, |_k: int| wall));
        }

        let mut old_tiles: Vec<Vec<char>> = Vec::new();
        std::mem::swap(&mut old_tiles, &mut self.tiles);
        let ghost before = grid(&new_tiles);
        new_tiles.append(&mut old_tiles);
        assert(grid(&new_tiles) =~= before + old_grid);

        let mut k: usize = 0;
        while k < bottom_rows
            invariant
                k <= bottom_rows,
                wall_row@ == wall,
                grid(&new_tiles) == Seq::new(top_rows as nat, |_k: int| wall) + old_grid
                    + Seq::new(k as nat, |_k: int| wall),
            decreases bottom_rows - k,
        {
            push_row(&mut new_tiles, clone_row(&wall_row));
            k = k + 1;
            assert(grid(&new_tiles) =~= Seq::new(top_rows as nat, |_k: int| wall) + old_grid
                + Seq::new(k as nat, |_k: int| wall));
        }

        self.tiles = new_tiles;
        self.height = min_height;
        if let Some((x, y)) = self.spawn_pos {
            self.spawn_pos = Some((x, y + top_rows));
        }
        if let Some((x, y)) = self.exit_pos {
            self.exit_pos = Some((x, y + top_rows));
        }
    }
}

} // verus!
