//! Character classes and the two lexical recognizers, spaces and newlines.

use vstd::prelude::*;

verus! {

/// The code points that count as a space inside a line.
pub open spec fn is_unicode_space(c: char) -> bool {
    c == ' ' || c == '\t' || c == '\u{FEFF}' || c == '\u{00A0}' || c == '\u{1680}'
        || ('\u{2000}' <= c && c <= '\u{200A}') || c == '\u{202F}' || c == '\u{205F}'
        || c == '\u{3000}'
}

/// The code points that end a line.
pub open spec fn is_newline_char(c: char) -> bool {
    c == '\r' || c == '\n' || c == '\u{0085}' || c == '\u{000C}' || c == '\u{2028}'
        || c == '\u{2029}'
}

/// Length of the newline sequence that starts at `i`: 2 for a carriage return
/// followed by a line feed, 1 for any other newline character, 0 where no
/// newline starts.
pub open spec fn newline_len(s: Seq<char>, i: int) -> int {
    if 0 <= i < s.len() && is_newline_char(s[i]) {
        if s[i] == '\r' && i + 1 < s.len() && s[i + 1] == '\n' {
            2
        } else {
            1
        }
    } else {
        0
    }
}

/// Length of the space or newline sequence that starts at `i`, 0 where
/// neither starts.
pub open spec fn blank_len(s: Seq<char>, i: int) -> int {
    if 0 <= i < s.len() && is_unicode_space(s[i]) {
        1
    } else {
        newline_len(s, i)
    }
}

/// End of the longest run of spaces and newlines that starts at `i`.
pub open spec fn blank_run_end(s: Seq<char>, i: int) -> int
    decreases s.len() - i,
{
    if blank_len(s, i) > 0 {
        blank_run_end(s, i + blank_len(s, i))
    } else {
        i
    }
}

/// Tells whether `c` is a space inside a line.
pub fn is_space(c: char) -> (r: bool)
    ensures
        r == is_unicode_space(c),
{
    c == ' ' || c == '\t' || c == '\u{FEFF}' || c == '\u{00A0}' || c == '\u{1680}'
        || ('\u{2000}' <= c && c <= '\u{200A}') || c == '\u{202F}' || c == '\u{205F}'
        || c == '\u{3000}'
}

/// Tells whether `c` ends a line.
pub fn is_line_break(c: char) -> (r: bool)
    ensures
        r == is_newline_char(c),
{
    c == '\r' || c == '\n' || c == '\u{0085}' || c == '\u{000C}' || c == '\u{2028}'
        || c == '\u{2029}'
}

/// Recognizes one space at `pos` and returns the position behind it.
pub fn unicode_space(input: &[char], pos: usize) -> (r: Option<usize>)
    ensures
        r is Some <==> pos < input@.len() && is_unicode_space(input@[pos as int]),
        r is Some ==> r->0 == pos + 1,
{
    if pos < input.len() && is_space(input[pos]) {
        Some(pos + 1)
    } else {
        None
    }
}

/// Recognizes one newline sequence at `pos`, the two-character one first,
/// and returns the position behind it.
pub fn newline(input: &[char], pos: usize) -> (r: Option<usize>)
    ensures
        r is Some <==> newline_len(input@, pos as int) > 0,
        r is Some ==> r->0 == pos + newline_len(input@, pos as int),
{
    if pos < input.len() && is_line_break(input[pos]) {
        if input[pos] == '\r' && pos + 1 < input.len() && input[pos + 1] == '\n' {
            Some(pos + 2)
        } else {
            Some(pos + 1)
        }
    } else {
        None
    }
}

/// Position behind the run of spaces and newlines that starts at `pos`.
pub fn skip_blank(input: &[char], pos: usize) -> (end: usize)
    requires
        pos <= input@.len(),
    ensures
        end == blank_run_end(input@, pos as int),
        pos <= end <= input@.len(),
{
    let mut i: usize = pos;
    loop
        invariant
            pos <= i <= input@.len(),
            blank_run_end(input@, i as int) == blank_run_end(input@, pos as int),
        decreases input@.len() - i,
    {
        let next = match unicode_space(input, i) {
            Some(e) => Some(e),
            None => newline(input, i),
        };
        match next {
            Some(e) => {
                i = e;
            },
            None => {
                return i;
            },
        }
    }
}

} // verus!
