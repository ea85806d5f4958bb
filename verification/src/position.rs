//! Line and column of the end of a consumed prefix, counted with the
//! grammar's own newline sequences.

use vstd::prelude::*;
use crate::lexical::{is_newline_char, newline_len, is_line_break, newline};

verus! {

/// A newline sequence starts at `i`: a newline character that is not the
/// line feed of a carriage return and line feed pair.
pub open spec fn is_break_start(s: Seq<char>, i: int) -> bool {
    0 <= i < s.len() && is_newline_char(s[i]) && !(s[i] == '\n' && i > 0 && s[i - 1] == '\r')
}

/// Number of newline sequences that start before position `n`, a carriage
/// return followed by a line feed counted once.
pub open spec fn breaks_before(s: Seq<char>, n: int) -> nat
    decreases n,
{
    if n <= 0 {
        0
    } else {
        breaks_before(s, n - 1) + if is_break_start(s, n - 1) {
            1nat
        } else {
            0nat
        }
    }
}

/// A line starts at `p`: the text starts there, or a newline sequence ends
/// there.
pub open spec fn line_starts_at(s: Seq<char>, p: int) -> bool {
    p == 0 || (0 < p <= s.len() && is_newline_char(s[p - 1]) && !(s[p - 1] == '\r' && p < s.len()
        && s[p] == '\n'))
}

/// The last line start at or before `p`.
pub open spec fn line_start_upto(s: Seq<char>, p: int) -> int
    decreases p,
{
    if p <= 0 {
        0
    } else if line_starts_at(s, p) {
        p
    } else {
        line_start_upto(s, p - 1)
    }
}

/// Start of the line that the end of `s` stands on. A newline sequence at
/// the very end of `s` closes that line and opens no further one.
pub open spec fn last_line_start(s: Seq<char>) -> int {
    line_start_upto(s, s.len() - 1)
}

/// Length of the newline sequence that `s` ends with, 0 if it ends
/// otherwise. Only the last two characters count, the longer sequence first.
pub open spec fn trailing_newline_len(s: Seq<char>) -> int {
    if s.len() >= 2 && s[s.len() - 2] == '\r' && s[s.len() - 1] == '\n' {
        2
    } else if s.len() >= 1 && is_newline_char(s[s.len() - 1]) {
        1
    } else {
        0
    }
}

/// 1 if `s` ends with a newline sequence, else 0.
pub open spec fn closing_break(s: Seq<char>) -> nat {
    if s.len() > 0 && is_newline_char(s[s.len() - 1]) {
        1
    } else {
        0
    }
}

/// The 1-based line of the end of `s`: one more than the newline sequences
/// in `s`, a closing one left out.
pub open spec fn line_of(s: Seq<char>) -> int {
    1 + breaks_before(s, s.len() as int) - closing_break(s)
}

/// The 1-based column of the end of `s`: one more than the characters of
/// its last line, a closing newline sequence left out.
pub open spec fn column_of(s: Seq<char>) -> int {
    1 + s.len() - last_line_start(s) - trailing_newline_len(s.subrange(last_line_start(s), s.len() as int))
}

/// A line start with no line start between it and `p` is the last one up
/// to `p`.
proof fn lemma_line_start_upto(s: Seq<char>, start: int, p: int)
    requires
        0 <= start,
        start <= p || start == 0,
        line_starts_at(s, start),
        forall|q: int| start < q <= p ==> !line_starts_at(s, q),
    ensures
        line_start_upto(s, p) == start,
    decreases p,
{
    if p > 0 && p > start {
        lemma_line_start_upto(s, start, p - 1);
    }
}

/// The last line start up to `p` is a line start, and none follows it up
/// to `p`.
proof fn lemma_line_start_props(s: Seq<char>, p: int)
    requires
        p < s.len(),
    ensures
        0 <= line_start_upto(s, p),
        line_start_upto(s, p) <= p || line_start_upto(s, p) == 0,
        line_starts_at(s, line_start_upto(s, p)),
        forall|q: int| line_start_upto(s, p) < q <= p ==> !line_starts_at(s, q),
    decreases p,
{
    if p > 0 && !line_starts_at(s, p) {
        lemma_line_start_props(s, p - 1);
    }
}

/// Where no newline sequence starts between `l` and `n`, as many start
/// before `n` as before `l`.
proof fn lemma_no_breaks(s: Seq<char>, l: int, n: int)
    requires
        0 <= l <= n <= s.len(),
        forall|j: int| l <= j < n ==> !is_break_start(s, j),
    ensures
        breaks_before(s, n) == breaks_before(s, l),
    decreases n - l,
{
    if n > l {
        lemma_no_breaks(s, l, n - 1);
    }
}

/// Counting lines in two steps agrees with splitting the text at every
/// newline sequence: the newline sequences before the start of the last
/// line, and the one that closes the text if there is one, are all the
/// newline sequences of the text, a carriage return with its line feed
/// counted once.
pub proof fn lemma_lines_match_breaks(s: Seq<char>)
    ensures
        breaks_before(s, last_line_start(s)) + closing_break(s) == breaks_before(
            s,
            s.len() as int,
        ),
        line_of(s) == 1 + breaks_before(s, last_line_start(s)),
        0 <= last_line_start(s) <= s.len(),
{
    let n = s.len() as int;
    let l = last_line_start(s);
    lemma_line_start_props(s, n - 1);
    if n > 0 {
        let j0 = if closing_break(s) == 1 {
            if s[n - 1] == '\n' && n >= 2 && s[n - 2] == '\r' {
                n - 2
            } else {
                n - 1
            }
        } else {
            n
        };
        assert forall|j: int| l <= j < j0 implies !is_break_start(s, j) by {
            if is_break_start(s, j) {
                let e = j + newline_len(s, j);
                assert(line_starts_at(s, e));
                assert(l < e <= n - 1);
            }
        }
        lemma_no_breaks(s, l, j0);
        if j0 == n - 1 {
            assert(is_break_start(s, n - 1));
        } else if j0 == n - 2 {
            assert(is_break_start(s, n - 2));
            assert(!is_break_start(s, n - 1));
            assert(breaks_before(s, n) == breaks_before(s, n - 1));
            assert(breaks_before(s, n - 1) == breaks_before(s, n - 2) + 1);
        }
    }
}

/// Skips every line of `input` that is closed by a newline sequence with
/// more text behind it. Returns where the last line starts and how many
/// lines were skipped.
pub fn count_leading_lines(input: &[char]) -> (r: (usize, usize))
    ensures
        r.0 == last_line_start(input@),
        r.1 == breaks_before(input@, r.0 as int),
        r.1 + closing_break(input@) == breaks_before(input@, input@.len() as int),
        r.0 <= input@.len(),
        r.1 <= r.0,
{
    let n = input.len();
    let ghost s = input@;
    let mut i: usize = 0;
    let mut start: usize = 0;
    let mut count: usize = 0;
    while i < n
        invariant
            n == s.len(),
            s == input@,
            start <= i <= n,
            start < n || start == 0,
            count <= start,
            !(0 < i < n && s[i - 1] == '\r' && s[i as int] == '\n'),
            line_starts_at(s, start as int),
            forall|q: int| start < q < i ==> !line_starts_at(s, q),
            i < n ==> i == start || !line_starts_at(s, i as int),
            count == breaks_before(s, start as int),
            breaks_before(s, i as int) == count + if i > start && line_starts_at(s, i as int) {
                1nat
            } else {
                0nat
            },
        decreases n - i,
    {
        match newline(input, i) {
            Some(e) => {
                proof {
                    assert(is_break_start(s, i as int));
                    assert(breaks_before(s, i + 1) == breaks_before(s, i as int) + 1);
                    if e == i + 2 {
                        assert(!is_break_start(s, i + 1));
                        assert(breaks_before(s, i + 2) == breaks_before(s, i + 1));
                        assert(!line_starts_at(s, i + 1));
                    }
                    assert(line_starts_at(s, e as int));
                }
                if e < n {
                    count = count + 1;
                    start = e;
                }
                i = e;
            },
            None => {
                proof {
                    assert(!is_break_start(s, i as int));
                    assert(breaks_before(s, i + 1) == breaks_before(s, i as int));
                    assert(!line_starts_at(s, i + 1));
                }
                i = i + 1;
            },
        }
    }
    proof {
        lemma_line_start_upto(s, start as int, n - 1);
    }
    (start, count)
}

/// Position at which the newline sequence that closes `input[from..]`
/// starts, or the end of `input` if it ends otherwise.
pub fn strip_trailing_newline(input: &[char], from: usize) -> (end: usize)
    requires
        from <= input@.len(),
    ensures
        end == input@.len() - trailing_newline_len(input@.subrange(from as int, input@.len() as int)),
        from <= end <= input@.len(),
{
    let n = input.len();
    if n - from >= 2 && input[n - 2] == '\r' && input[n - 1] == '\n' {
        n - 2
    } else if n - from >= 1 && is_line_break(input[n - 1]) {
        n - 1
    } else {
        n
    }
}

/// The 1-based line and column of the end of `input`.
pub fn calculate_line_column(input: &[char]) -> (r: (usize, usize))
    requires
        input@.len() < usize::MAX,
    ensures
        r.0 == line_of(input@),
        r.1 == column_of(input@),
{
    let (start, skipped) = count_leading_lines(input);
    let end = strip_trailing_newline(input, start);
    (skipped + 1, end - start + 1)
}

} // verus!
