//! Level text: characters, lines, headers.

use vstd::prelude::*;
use vstd::string::*;

verus! {

/// The characters of a string, in order.
pub fn str_chars(s: &str) -> (v: Vec<char>)
    ensures
        v@ == s@,
{
    let n = s.unicode_len();
    let mut v: Vec<char> = Vec::new();
    let mut i: usize = 0;
    while i < n
        invariant
            n == s@.len(),
            i <= n,
            v@ == s@.subrange(0, i as int),
        decreases n - i,
    {
        v.push(s.get_char(i));
        i = i + 1;
        assert(v@ =~= s@.subrange(0, i as int));
    }
    assert(s@.subrange(0, n as int) =~= s@);
    v
}

/// Appends one character to a string.
///
/// Calls `String::push`, which appends the character at the end; that is
/// what the contract states.
#[verifier::external_body]
pub(crate) fn push_char(s: &mut String, c: char)
    ensures
        final(s)@ == old(s)@.push(c),
{
    s.push(c);
}

/// A string holding exactly the given characters.
pub fn chars_to_string(v: &Vec<char>) -> (s: String)
    ensures
        s@ == v@,
{
    let mut s = String::new();
    let n = v.len();
    let mut i: usize = 0;
    while i < n
        invariant
            n == v@.len(),
            i <= n,
            s@ == v@.subrange(0, i as int),
        decreases n - i,
    {
        push_char(&mut s, v[i]);
        i = i + 1;
        assert(s@ =~= v@.subrange(0, i as int));
    }
    assert(v@.subrange(0, n as int) =~= v@);
    s
}

/// A line without the carriage return that ends it, if any.
pub open spec fn strip_cr(line: Seq<char>) -> Seq<char> {
    if line.len() > 0 && line.last() == '\r' {
        line.drop_last()
    } else {
        line
    }
}

/// Splitting state after reading `s`: the finished lines and the line
/// being read.
pub open spec fn split_state(s: Seq<char>) -> (Seq<Seq<char>>, Seq<char>)
    decreases s.len(),
{
    if s.len() == 0 {
        (Seq::empty(), Seq::empty())
    } else {
        let (done, cur) = split_state(s.drop_last());
        if s.last() == '\n' {
            (done.push(strip_cr(cur)), Seq::empty())
        } else {
            (done, cur.push(s.last()))
        }
    }
}

/// The lines of a text: split at `\n`, each line without a trailing `\r`
/// before that `\n`; a last line after the final `\n` counts only when it
/// is not empty.
pub open spec fn lines_of(s: Seq<char>) -> Seq<Seq<char>> {
    let (done, cur) = split_state(s);
    if cur.len() == 0 { done } else { done.push(cur) }
}

/// `lines` joined with `\n` between them.
pub open spec fn join_lines(lines: Seq<Seq<char>>) -> Seq<char>
    decreases lines.len(),
{
    if lines.len() == 0 {
        Seq::empty()
    } else if lines.len() == 1 {
        lines[0]
    } else {
        join_lines(lines.drop_last()) + seq!['\n'] + lines.last()
    }
}

/// Splits text into lines, as `lines_of` says.
pub fn split_lines(s: &Vec<char>) -> (res: Vec<Vec<char>>)
    ensures
        res@.len() == lines_of(s@).len(),
        forall|i: int| 0 <= i < res@.len() ==> #[trigger] res@[i]@ == lines_of(s@)[i],
{
    let mut done: Vec<Vec<char>> = Vec::new();
    let mut cur: Vec<char> = Vec::new();
    let n = s.len();
    let mut i: usize = 0;
    while i < n
        invariant
            n == s@.len(),
            i <= n,
            done@.len() == split_state(s@.subrange(0, i as int)).0.len(),
            forall|k: int| 0 <= k < done@.len() ==> #[trigger] done@[k]@ == split_state(s@.subrange(0, i as int)).0[k],
            cur@ == split_state(s@.subrange(0, i as int)).1,
        decreases n - i,
    {
        let ghost prev = s@.subrange(0, i as int);
        let c = s[i];
        assert(s@.subrange(0, i + 1).drop_last() =~= prev);
        if c == '\n' {
            let l = cur.len();
            if l > 0 && cur[l - 1] == '\r' {
                cur.pop();
            }
            let mut line: Vec<char> = Vec::new();
            std::mem::swap(&mut line, &mut cur);
            done.push(line);
        } else {
            cur.push(c);
        }
        i = i + 1;
    }
    assert(s@.subrange(0, n as int) =~= s@);
    if cur.len() > 0 {
        done.push(cur);
    }
    done
}

/// Joins rows of characters with `\n` between them.
pub fn join_rows(rows: &Vec<Vec<char>>) -> (res: Vec<char>)
    ensures
        res@ == join_lines(Seq::new(rows@.len(), |i: int| rows@[i]@)),
{
    let ghost all = Seq::new(rows@.len(), |i: int| rows@[i]@);
    let mut res: Vec<char> = Vec::new();
    let n = rows.len();
    let mut i: usize = 0;
    while i < n
        invariant
            n == rows@.len(),
            all == Seq::new(rows@.len(), |i: int| rows@[i]@),
            i <= n,
            res@ == join_lines(all.subrange(0, i as int)),
        decreases n - i,
    {
        assert(all.subrange(0, i + 1).drop_last() =~= all.subrange(0, i as int));
        if i > 0 {
            res.push('\n');
        } else {
            assert(all.subrange(0, 0) =~= Seq::<Seq<char>>::empty());
        }
        let row = &rows[i];
        let m = row.len();
        let mut j: usize = 0;
        let ghost base = res@;
        while j < m
            invariant
                m == row@.len(),
                j <= m,
                res@ == base + row@.subrange(0, j as int),
            decreases m - j,
        {
            res.push(row[j]);
            j = j + 1;
            assert(res@ =~= base + row@.subrange(0, j as int));
        }
        assert(row@.subrange(0, m as int) =~= row@);
        i = i + 1;
        assert(res@ =~= join_lines(all.subrange(0, i as int)));
    }
    assert(all.subrange(0, n as int) =~= all);
    res
}

/// Whether `c` has Unicode's White_Space property (PropList.txt): tab,
/// line feed, vertical tab, form feed, carriage return, space, next line,
/// no-break space, ogham space mark, the spaces U+2000 to U+200A, line and
/// paragraph separators, narrow no-break space, medium mathematical space
/// and ideographic space.
pub open spec fn white_space(c: char) -> bool {
    let u = c as u32;
    ||| 0x09 <= u <= 0x0d
    ||| u == 0x20
    ||| u == 0x85
    ||| u == 0xa0
    ||| u == 0x1680
    ||| 0x2000 <= u <= 0x200a
    ||| u == 0x2028
    ||| u == 0x2029
    ||| u == 0x202f
    ||| u == 0x205f
    ||| u == 0x3000
}

/// Whether `c` has the Unicode White_Space property, the property
/// `char::is_whitespace` answers, as `white_space` lists it.
fn is_white(c: char) -> (b: bool)
    ensures
        b == white_space(c),
{
    let u = c as u32;
    (0x09 <= u && u <= 0x0d) || u == 0x20 || u == 0x85 || u == 0xa0 || u == 0x1680
        || (0x2000 <= u && u <= 0x200a) || u == 0x2028 || u == 0x2029 || u == 0x202f || u == 0x205f
        || u == 0x3000
}

/// `s` without its leading white space.
pub open spec fn trim_start(s: Seq<char>) -> Seq<char>
    decreases s.len(),
{
    if s.len() > 0 && white_space(s[0]) { trim_start(s.drop_first()) } else { s }
}

/// `s` without its trailing white space.
pub open spec fn trim_end(s: Seq<char>) -> Seq<char>
    decreases s.len(),
{
    if s.len() > 0 && white_space(s.last()) { trim_end(s.drop_last()) } else { s }
}

/// `s` without white space at either end.
pub open spec fn trim_ws(s: Seq<char>) -> Seq<char> {
    trim_end(trim_start(s))
}

/// Trimming the end keeps a prefix.
pub proof fn lemma_trim_end_prefix(s: Seq<char>)
    ensures
        trim_end(s).len() <= s.len(),
        trim_end(s) == s.subrange(0, trim_end(s).len() as int),
    decreases s.len(),
{
    if s.len() > 0 && white_space(s.last()) {
        lemma_trim_end_prefix(s.drop_last());
        let t = trim_end(s.drop_last());
        assert(s.drop_last().subrange(0, t.len() as int) =~= s.subrange(0, t.len() as int));
    } else {
        assert(s.subrange(0, s.len() as int) =~= s);
    }
}

/// The characters of `s` from `lo` to `hi`.
pub fn copy_chars(s: &Vec<char>, lo: usize, hi: usize) -> (r: Vec<char>)
    requires
        lo <= hi <= s@.len(),
    ensures
        r@ == s@.subrange(lo as int, hi as int),
{
    let mut r: Vec<char> = Vec::new();
    let mut i = lo;
    while i < hi
        invariant
            lo <= i <= hi,
            hi <= s@.len(),
            r@ == s@.subrange(lo as int, i as int),
        decreases hi - i,
    {
        r.push(s[i]);
        i = i + 1;
        assert(r@ =~= s@.subrange(lo as int, i as int));
    }
    r
}

/// `s` without white space at either end, as `trim_ws` says.
pub fn trim_chars(s: &Vec<char>) -> (r: Vec<char>)
    ensures
        r@ == trim_ws(s@),
{
    let n = s.len();
    assert(s@.subrange(0, n as int) =~= s@);
    let mut i: usize = 0;
    while i < n && is_white(s[i])
        invariant
            n == s@.len(),
            i <= n,
            trim_start(s@) == trim_start(s@.subrange(i as int, n as int)),
        decreases n - i,
    {
        assert(s@.subrange(i as int, n as int).drop_first() =~= s@.subrange(i + 1, n as int));
        i = i + 1;
    }
    let ghost front = s@.subrange(i as int, n as int);
    assert(trim_start(s@) == front) by {
        if i < n {
            assert(front[0] == s@[i as int]);
        }
    }
    let mut j: usize = n;
    while j > i && is_white(s[j - 1])
        invariant
            n == s@.len(),
            i <= j <= n,
            front == s@.subrange(i as int, n as int),
            trim_end(front) == trim_end(s@.subrange(i as int, j as int)),
        decreases j,
    {
        assert(s@.subrange(i as int, j as int).drop_last() =~= s@.subrange(i as int, j - 1));
        j = j - 1;
    }
    assert(trim_end(front) == s@.subrange(i as int, j as int)) by {
        if j > i {
            assert(s@.subrange(i as int, j as int).last() == s@[j - 1]);
        }
    }
    copy_chars(s, i, j)
}

/// Length of the longest row (zero without rows).
pub open spec fn max_row_len(rows: Seq<Seq<char>>) -> int
    decreases rows.len(),
{
    if rows.len() == 0 {
        0
    } else {
        let m = max_row_len(rows.drop_last());
        if rows.last().len() > m { rows.last().len() as int } else { m }
    }
}

/// Every row is at most as long as the longest, which is one of them.
pub proof fn lemma_max_row_len(rows: Seq<Seq<char>>)
    ensures
        forall|r: int| 0 <= r < rows.len() ==> #[trigger] rows[r].len() <= max_row_len(rows),
        rows.len() > 0 ==> exists|r: int| 0 <= r < rows.len() && #[trigger] rows[r].len() == max_row_len(rows),
        max_row_len(rows) >= 0,
    decreases rows.len(),
{
    if rows.len() > 0 {
        let prev = rows.drop_last();
        lemma_max_row_len(prev);
        assert forall|r: int| 0 <= r < rows.len() implies #[trigger] rows[r].len() <= max_row_len(rows) by {
            if r < rows.len() - 1 {
                assert(rows[r] == prev[r]);
            }
        }
        if rows.last().len() > max_row_len(prev) {
            assert(rows[rows.len() - 1].len() == max_row_len(rows));
        } else if prev.len() > 0 {
            let r = choose|r: int| 0 <= r < prev.len() && #[trigger] prev[r].len() == max_row_len(prev);
            assert(rows[r].len() == max_row_len(rows));
        } else {
            assert(rows[0].len() == max_row_len(rows));
        }
    }
}

/// Length of the longest row, as `max_row_len` says.
pub fn longest_row(rows: &Vec<Vec<char>>) -> (m: usize)
    ensures
        m == max_row_len(Seq::new(rows@.len(), |i: int| rows@[i]@)),
{
    let ghost all = Seq::new(rows@.len(), |i: int| rows@[i]@);
    let n = rows.len();
    let mut m: usize = 0;
    let mut i: usize = 0;
    while i < n
        invariant
            n == rows@.len(),
            all == Seq::new(rows@.len(), |i: int| rows@[i]@),
            i <= n,
            m == max_row_len(all.subrange(0, i as int)),
        decreases n - i,
    {
        assert(all.subrange(0, i + 1).drop_last() =~= all.subrange(0, i as int));
        if rows[i].len() > m {
            m = rows[i].len();
        }
        i = i + 1;
    }
    assert(all.subrange(0, n as int) =~= all);
    m
}

/// Trimmed text that is not empty starts with a character that is not
/// white space.
proof fn lemma_trim_start_first(s: Seq<char>)
    ensures
        trim_start(s).len() > 0 ==> !white_space(trim_start(s)[0]),
    decreases s.len(),
{
    if s.len() > 0 && white_space(s[0]) {
        lemma_trim_start_first(s.drop_first());
    }
}

/// Reading text that starts with neither a line feed nor a carriage
/// return, the first line is never empty.
proof fn lemma_split_first(s: Seq<char>)
    requires
        s.len() > 0,
        s[0] != '\n',
        s[0] != '\r',
    ensures
        split_state(s).0.len() > 0 ==> split_state(s).0[0].len() > 0,
        split_state(s).0.len() == 0 ==> split_state(s).1.len() > 0 && split_state(s).1[0] == s[0],
    decreases s.len(),
{
    if s.len() > 1 {
        let p = s.drop_last();
        assert(p[0] == s[0]);
        lemma_split_first(p);
        let (done, cur) = split_state(p);
        if s.last() == '\n' {
            if done.len() == 0 {
                assert(strip_cr(cur).len() > 0);
                assert(done.push(strip_cr(cur))[0] == strip_cr(cur));
            } else {
                assert(done.push(strip_cr(cur))[0] == done[0]);
            }
        } else if done.len() == 0 {
            assert(cur.push(s.last())[0] == cur[0]);
        }
    } else {
        assert(s.drop_last().len() == 0);
        assert(split_state(s.drop_last()) == (Seq::<Seq<char>>::empty(), Seq::<char>::empty()));
    }
}

/// The lines of trimmed text, when there are any, are not all empty.
pub proof fn lemma_trimmed_rows_not_blank(s: Seq<char>)
    ensures
        lines_of(trim_ws(s)).len() > 0 ==> max_row_len(lines_of(trim_ws(s))) >= 1,
{
    let a = trim_start(s);
    let t = trim_ws(s);
    lemma_trim_start_first(s);
    lemma_trim_end_prefix(a);
    if t.len() == 0 {
        assert(split_state(t) == (Seq::<Seq<char>>::empty(), Seq::<char>::empty()));
    } else {
        assert(t[0] == a[0]);
        assert(white_space('\n') && white_space('\r')) by {
            assert('\n' as u32 == 0x0a);
            assert('\r' as u32 == 0x0d);
        }
        lemma_split_first(t);
        let rows = lines_of(t);
        assert(rows.len() > 0 && rows[0].len() > 0);
        lemma_max_row_len(rows);
    }
}

/// Every character of every line appears in the joined text.
pub proof fn lemma_join_lines_contains(lines: Seq<Seq<char>>, r: int, c: int)
    requires
        0 <= r < lines.len(),
        0 <= c < lines[r].len(),
    ensures
        join_lines(lines).contains(lines[r][c]),
    decreases lines.len(),
{
    if lines.len() == 1 {
        assert(join_lines(lines)[c] == lines[r][c]);
    } else {
        let pre = join_lines(lines.drop_last());
        let all = join_lines(lines);
        assert(all == pre + seq!['\n'] + lines.last());
        if r == lines.len() - 1 {
            assert(all[pre.len() + 1 + c] == lines[r][c]);
        } else {
            lemma_join_lines_contains(lines.drop_last(), r, c);
            assert(lines.drop_last()[r] == lines[r]);
            let i = choose|i: int| 0 <= i < pre.len() && pre[i] == lines[r][c];
            assert(all[i] == pre[i]);
        }
    }
}

} // verus!
