//! Seeds and tilemaps derived from level text.

use vstd::prelude::*;
use vstd::string::*;
use crate::text::{chars_to_string, str_chars};

verus! {

/// The seed of a byte string: starting from zero, each byte `b` turns the
/// accumulator `acc` into `acc * 31 + b`, wrapping at 2^64.
pub open spec fn seed_of(bytes: Seq<u8>) -> u64
    decreases bytes.len(),
{
    if bytes.len() == 0 {
        0
    } else {
        vstd::wrapping::u64_specs::wrapping_add(
            vstd::wrapping::u64_specs::wrapping_mul(seed_of(bytes.drop_last()), 31),
            bytes.last() as u64,
        )
    }
}

/// A deterministic seed computed from the UTF-8 bytes of level content.
pub fn compute_content_seed(content: &str) -> (seed: u64)
    ensures
        seed == seed_of(content.spec_bytes()),
{
    let bytes = content.as_bytes();
    let n = bytes.len();
    let mut acc: u64 = 0;
    let mut i: usize = 0;
    while i < n
        invariant
            n == bytes@.len(),
            bytes@ == content.spec_bytes(),
            i <= n,
            acc == seed_of(bytes@.subrange(0, i as int)),
        decreases n - i,
    {
        let b = bytes[i];
        assert(bytes@.subrange(0, i + 1).drop_last() =~= bytes@.subrange(0, i as int));
        acc = acc.wrapping_mul(31).wrapping_add(b as u64);
        i = i + 1;
    }
    assert(bytes@.subrange(0, n as int) =~= bytes@);
    acc
}

/// Equal contents give equal seeds.
pub proof fn lemma_seed_deterministic(a: &str, b: &str)
    requires
        a@ == b@,
    ensures
        seed_of(a.spec_bytes()) == seed_of(b.spec_bytes()),
{
}

/// The separator between a level's header and its tilemap.
pub open spec fn header_separator() -> Seq<char> {
    seq!['\n', '-', '-', '-', '\n']
}

/// `pat` occurs in `s` starting at index `i`.
pub open spec fn occurs_at(s: Seq<char>, pat: Seq<char>, i: int) -> bool {
    0 <= i && i + pat.len() <= s.len() && s.subrange(i, i + pat.len()) == pat
}

/// The first index at which `pat` occurs in `s`, if any.
#[verifier::opaque]
pub open spec fn first_occurrence(s: Seq<char>, pat: Seq<char>) -> Option<int> {
    if exists|i: int| #[trigger] occurs_at(s, pat, i) {
        Some(choose|i: int| #[trigger] occurs_at(s, pat, i) && forall|j: int| 0 <= j < i ==> !#[trigger] occurs_at(s, pat, j))
    } else {
        None
    }
}

/// `s` without its leading newlines.
pub open spec fn trim_leading_newlines(s: Seq<char>) -> Seq<char>
    decreases s.len(),
{
    if s.len() > 0 && s[0] == '\n' {
        trim_leading_newlines(s.drop_first())
    } else {
        s
    }
}

/// Where the tilemap starts in level content: after the first `\n---\n`;
/// without one, after a leading `---` and the character that follows it;
/// else at the beginning.
pub open spec fn tilemap_start(s: Seq<char>) -> int {
    match first_occurrence(s, header_separator()) {
        Some(p) => p + 5,
        None => if s.len() >= 3 && s.subrange(0, 3) == seq!['-', '-', '-'] { 4 } else { 0 },
    }
}

/// The part of level content that holds the tilemap: from `tilemap_start`
/// on, without leading newlines.
pub open spec fn tilemap_part(s: Seq<char>) -> Seq<char> {
    trim_leading_newlines(s.subrange(tilemap_start(s), s.len() as int))
}

/// Content on which taking the tilemap part cuts the text inside a
/// character: a leading `---` with no `\n---\n` anywhere, followed by
/// nothing or by a character that takes more than one byte.
pub open spec fn cuts_inside_char(s: Seq<char>) -> bool {
    &&& first_occurrence(s, header_separator()) is None
    &&& s.len() >= 3 && s.subrange(0, 3) == seq!['-', '-', '-']
    &&& (s.len() < 4 || s[3] as u32 >= 0x80)
}

/// Finds the first occurrence of `pat` in `s`.
pub fn find_chars(s: &Vec<char>, pat: &Vec<char>) -> (res: Option<usize>)
    ensures
        match res {
            Some(i) => first_occurrence(s@, pat@) == Some(i as int) && i + pat@.len() <= s@.len(),
            None => first_occurrence(s@, pat@) is None,
        },
{
    reveal(first_occurrence);
    let n = s.len();
    let m = pat.len();
    if m > n {
        assert(forall|i: int| !#[trigger] occurs_at(s@, pat@, i));
        return None;
    }
    let mut i: usize = 0;
    while i <= n - m
        invariant
            n == s@.len(),
            m == pat@.len(),
            m <= n,
            i <= n - m + 1,
            forall|j: int| 0 <= j < i ==> !#[trigger] occurs_at(s@, pat@, j),
        decreases n - m + 1 - i,
    {
        let mut k: usize = 0;
        let mut matched = true;
        while k < m
            invariant
                n == s@.len(),
                m == pat@.len(),
                i + m <= n,
                k <= m,
                matched == (forall|t: int| 0 <= t < k ==> s@[i + t] == pat@[t]),
            decreases m - k,
        {
            if s[i + k] != pat[k] {
                matched = false;
            }
            k = k + 1;
        }
        if matched {
            reveal(first_occurrence);
            assert(s@.subrange(i as int, i + m) =~= pat@);
            assert(occurs_at(s@, pat@, i as int));
            let ghost c = choose|c: int| #[trigger] occurs_at(s@, pat@, c) && forall|j: int| 0 <= j < c ==> !#[trigger] occurs_at(s@, pat@, j);
            assert(c == i) by {
                if c < i {
                } else if c > i {
                }
            }
            assert(first_occurrence(s@, pat@) == Some(i as int));
            assert(i + pat@.len() <= s@.len());
            return Some(i);
        } else {
            assert(!occurs_at(s@, pat@, i as int)) by {
                if occurs_at(s@, pat@, i as int) {
                    assert forall|t: int| 0 <= t < m implies s@[i + t] == pat@[t] by {
                        assert(s@.subrange(i as int, i + m)[t] == s@[i + t]);
                    }
                }
            }
        }
        i = i + 1;
    }
    reveal(first_occurrence);
    assert forall|j: int| !#[trigger] occurs_at(s@, pat@, j) by {
        if 0 <= j && j < i {
        }
    }
    None
}

/// Index of the first tilemap character, as `tilemap_start` says.
pub fn find_tilemap_start(s: &Vec<char>) -> (start: usize)
    requires
        !cuts_inside_char(s@),
    ensures
        start == tilemap_start(s@),
        start <= s@.len(),
{
    let sep: Vec<char> = vec!['\n', '-', '-', '-', '\n'];
    assert(sep@ =~= header_separator());
    let n = s.len();
    let found = find_chars(s, &sep);
    match found {
        Some(p) => {
            assert(p + sep@.len() <= s@.len());
            assert(sep@.len() == 5);
            p + 5
        },
        None => {
            if s.len() >= 3 && s[0] == '-' && s[1] == '-' && s[2] == '-' {
                assert(s@.subrange(0, 3) =~= seq!['-', '-', '-']);
                4
            } else {
                proof {
                    if s@.len() >= 3 && s@.subrange(0, 3) == seq!['-', '-', '-'] {
                        assert(s@[0] == s@.subrange(0, 3)[0]);
                        assert(s@[1] == s@.subrange(0, 3)[1]);
                        assert(s@[2] == s@.subrange(0, 3)[2]);
                    }
                }
                0
            }
        },
    }
}

/// The tilemap part of level content, as `tilemap_part` says.
pub fn extract_tilemap(content: &str) -> (res: String)
    requires
        !cuts_inside_char(content@),
    ensures
        res@ == tilemap_part(content@),
{
    let s = str_chars(content);
    let start = find_tilemap_start(&s);
    let ghost rest = s@.subrange(start as int, s@.len() as int);
    let n = s.len();
    let mut i = start;
    while i < n && s[i] == '\n'
        invariant
            n == s@.len(),
            start <= i <= n,
            trim_leading_newlines(rest) == trim_leading_newlines(s@.subrange(i as int, n as int)),
        decreases n - i,
    {
        assert(s@.subrange(i as int, n as int).drop_first() =~= s@.subrange(i + 1, n as int));
        i = i + 1;
    }
    let out = crate::segment_linker::grid::copy_range(&s, i, n);
    proof {
        let t = s@.subrange(i as int, n as int);
        if i < n {
            assert(t[0] != '\n');
        }
    }
    chars_to_string(&out)
}

} // verus!
