//! Breaking text into lines: at spaces to fit a width, or at newlines for
//! preformatted text.
use crate::text::substring;
use vstd::prelude::*;
use vstd::string::StrSliceExecFns;

verus! {

/// The largest index `j` in `1..=hi` where `s` holds a space, or `0` if none.
pub open spec fn last_space(s: Seq<char>, hi: int) -> int
    decreases hi,
{
    if hi <= 0 {
        0
    } else if s[hi] == ' ' {
        hi
    } else {
        last_space(s, hi - 1)
    }
}

/// The lines `s` is broken into so that none holds more than `max` characters:
/// each break falls on the last space that keeps the line short enough (the
/// space itself is dropped), or, where there is none, right after `max`
/// characters.
pub open spec fn wrap(s: Seq<char>, max: int) -> Seq<Seq<char>>
    recommends
        max >= 1,
    decreases s.len(),
{
    if max < 1 || s.len() <= max {
        seq![s]
    } else {
        let j = last_space(s, max);
        if 0 < j <= max {
            seq![s.subrange(0, j)] + wrap(s.subrange(j + 1, s.len() as int), max)
        } else {
            seq![s.subrange(0, max)] + wrap(s.subrange(max, s.len() as int), max)
        }
    }
}

/// The first index at or after `from` where `s` holds a newline, or `s.len()`.
pub open spec fn next_newline(s: Seq<char>, from: int) -> int
    decreases s.len() - from,
{
    if from >= s.len() {
        s.len() as int
    } else if s[from] == '\n' {
        from
    } else {
        next_newline(s, from + 1)
    }
}

/// The lines of `s` split at each newline; the newlines are dropped.
pub open spec fn split_newlines(s: Seq<char>) -> Seq<Seq<char>>
    decreases s.len(),
{
    let k = next_newline(s, 0);
    if k < 0 || k >= s.len() {
        seq![s]
    } else {
        seq![s.subrange(0, k)] + split_newlines(s.subrange(k + 1, s.len() as int))
    }
}

proof fn lemma_last_space_range(s: Seq<char>, hi: int)
    ensures
        0 <= last_space(s, hi),
        hi >= 0 ==> last_space(s, hi) <= hi,
        last_space(s, hi) > 0 ==> s[last_space(s, hi)] == ' ',
    decreases hi,
{
    if hi > 0 && s[hi] != ' ' {
        lemma_last_space_range(s, hi - 1);
    }
}

/// Finds the last space in `s[1..=hi]`.
fn find_last_space(s: &str, hi: usize) -> (r: usize)
    requires
        hi < s@.len(),
    ensures
        r == last_space(s@, hi as int),
{
    let mut j = hi;
    while j > 0
        invariant
            j <= hi < s@.len(),
            last_space(s@, hi as int) == last_space(s@, j as int),
        decreases j,
    {
        if s.get_char(j) == ' ' {
            return j;
        }
        j = j - 1;
    }
    0
}

/// Breaks `s` into lines of at most `max` characters, at spaces where it can.
pub fn wrap_text(s: &str, max: usize) -> (r: Vec<String>)
    requires
        max >= 1,
    ensures
        r@.map_values(|l: String| l@) == wrap(s@, max as int),
{
    let n = s.unicode_len();
    let mut lines: Vec<String> = Vec::new();
    let mut start: usize = 0;
    assert(s@.subrange(0, n as int) =~= s@);
    while n - start > max
        invariant
            n == s@.len(),
            start <= n,
            max >= 1,
            lines@.map_values(|l: String| l@) + wrap(s@.subrange(start as int, n as int), max as int)
                == wrap(s@, max as int),
        decreases n - start,
    {
        let ghost rest = s@.subrange(start as int, n as int);
        let rest_str = s.substring_char(start, n);
        let j = find_last_space(rest_str, max);
        proof {
            lemma_last_space_range(rest, max as int);
        }
        if j > 0 {
            let line = substring(s, start, start + j);
            proof {
                assert(line@ =~= rest.subrange(0, j as int));
                assert(rest.subrange(j + 1, rest.len() as int) =~= s@.subrange(
                    start + j + 1,
                    n as int,
                ));
            }
            lines.push(line);
            start = start + j + 1;
        } else {
            let line = substring(s, start, start + max);
            proof {
                assert(line@ =~= rest.subrange(0, max as int));
                assert(rest.subrange(max as int, rest.len() as int) =~= s@.subrange(
                    start + max,
                    n as int,
                ));
            }
            lines.push(line);
            start = start + max;
        }
        proof {
            assert(lines@.map_values(|l: String| l@) =~= views_with_last(lines@));
        }
    }
    let last = substring(s, start, n);
    lines.push(last);
    proof {
        assert(lines@.map_values(|l: String| l@) =~= views_with_last(lines@));
    }
    lines
}

/// The views of `lines`: those of all but the last, then the last.
spec fn views_with_last(lines: Seq<String>) -> Seq<Seq<char>> {
    lines.drop_last().map_values(|l: String| l@) + seq![lines.last()@]
}

/// Splits `s` at each newline.
pub fn split_text_lines(s: &str) -> (r: Vec<String>)
    ensures
        r@.map_values(|l: String| l@) == split_newlines(s@),
{
    let n = s.unicode_len();
    let mut lines: Vec<String> = Vec::new();
    let mut start: usize = 0;
    let mut k: usize = 0;
    assert(s@.subrange(0, n as int) =~= s@);
    while k < n
        invariant
            n == s@.len(),
            start <= k <= n,
            forall|m: int| start <= m < k ==> s@[m] != '\n',
            lines@.map_values(|l: String| l@) + split_newlines(s@.subrange(start as int, n as int))
                == split_newlines(s@),
        decreases n - k,
    {
        if s.get_char(k) == '\n' {
            let ghost rest = s@.subrange(start as int, n as int);
            proof {
                lemma_next_newline_found(rest, 0, (k - start) as int);
                assert(rest.subrange(0, (k - start) as int) =~= s@.subrange(start as int, k as int));
                assert(rest.subrange((k - start) + 1, rest.len() as int) =~= s@.subrange(
                    k + 1,
                    n as int,
                ));
            }
            let line = substring(s, start, k);
            lines.push(line);
            proof {
                assert(lines@.map_values(|l: String| l@) =~= views_with_last(lines@));
            }
            start = k + 1;
        }
        k = k + 1;
    }
    let ghost rest = s@.subrange(start as int, n as int);
    proof {
        lemma_next_newline_none(rest, 0);
    }
    let last = substring(s, start, n);
    lines.push(last);
    proof {
        assert(lines@.map_values(|l: String| l@) =~= views_with_last(lines@));
    }
    lines
}

proof fn lemma_next_newline_found(s: Seq<char>, from: int, k: int)
    requires
        0 <= from <= k < s.len(),
        s[k] == '\n',
        forall|m: int| from <= m < k ==> s[m] != '\n',
    ensures
        next_newline(s, from) == k,
    decreases k - from,
{
    if from < k {
        lemma_next_newline_found(s, from + 1, k);
    }
}

proof fn lemma_next_newline_none(s: Seq<char>, from: int)
    requires
        0 <= from <= s.len(),
        forall|m: int| from <= m < s.len() ==> s[m] != '\n',
    ensures
        next_newline(s, from) == s.len(),
    decreases s.len() - from,
{
    if from < s.len() {
        lemma_next_newline_none(s, from + 1);
    }
}

} // verus!
