//! Single-line and multi-line comments.

use vstd::prelude::*;
use crate::lexical::{newline_len, newline};
use crate::model::KdlComment;
use crate::text::slice_text;

verus! {

/// The two characters `a`, `b` stand at `i`.
pub open spec fn pair_at(s: Seq<char>, i: int, a: char, b: char) -> bool {
    0 <= i && i + 1 < s.len() && s[i] == a && s[i + 1] == b
}

/// Position behind the first newline sequence at or after `i`, or the end
/// of the text where no newline follows.
pub open spec fn line_end(s: Seq<char>, i: int) -> int
    decreases s.len() - i,
{
    if i < 0 || i >= s.len() {
        i
    } else if newline_len(s, i) > 0 {
        i + newline_len(s, i)
    } else {
        line_end(s, i + 1)
    }
}

/// End of the single-line comment that starts at `i`: the marker, then
/// everything up to and including the next newline sequence or the end of
/// the text.
pub open spec fn single_line_comment_end(s: Seq<char>, i: int) -> Option<int> {
    if pair_at(s, i, '/', '/') {
        Some(line_end(s, i + 2))
    } else {
        None
    }
}

/// Position behind the close delimiter that brings the nesting depth from
/// `depth` to zero, scanning from `i`. Every open delimiter on the way
/// raises the depth by one, every close delimiter lowers it by one. `None`
/// where the text ends first.
pub open spec fn block_end(s: Seq<char>, i: int, depth: nat) -> Option<int>
    decreases s.len() - i,
{
    if i < 0 || i + 1 >= s.len() {
        None
    } else if s[i] == '*' && s[i + 1] == '/' {
        if depth <= 1 {
            Some(i + 2)
        } else {
            block_end(s, i + 2, (depth - 1) as nat)
        }
    } else if s[i] == '/' && s[i + 1] == '*' {
        block_end(s, i + 2, depth + 1)
    } else {
        block_end(s, i + 1, depth)
    }
}

/// End of the multi-line comment that starts at `i`, nested comments
/// balanced.
pub open spec fn multi_line_comment_end(s: Seq<char>, i: int) -> Option<int> {
    if pair_at(s, i, '/', '*') {
        block_end(s, i + 2, 1)
    } else {
        None
    }
}

/// An exact position result: both absent, or both the same position.
pub open spec fn same_end(r: Option<usize>, e: Option<int>) -> bool {
    match (r, e) {
        (Some(a), Some(b)) => a == b,
        (None, None) => true,
        _ => false,
    }
}

/// The two characters `a`, `b` stand at `pos`.
pub fn has_pair(input: &[char], pos: usize, a: char, b: char) -> (r: bool)
    ensures
        r == pair_at(input@, pos as int, a, b),
{
    pos < input.len() && input.len() - pos >= 2 && input[pos] == a && input[pos + 1] == b
}

/// Recognizes a single-line comment at `pos`.
pub fn single_line_comment(input: &[char], pos: usize) -> (r: Option<usize>)
    ensures
        same_end(r, single_line_comment_end(input@, pos as int)),
        r is Some ==> pos + 2 <= r->0 <= input@.len(),
{
    let n = input.len();
    if !has_pair(input, pos, '/', '/') {
        return None;
    }
    let mut i: usize = pos + 2;
    loop
        invariant
            n == input@.len(),
            pos + 2 <= i <= input@.len(),
            pair_at(input@, pos as int, '/', '/'),
            line_end(input@, i as int) == line_end(input@, pos + 2),
        decreases input@.len() - i,
    {
        if i >= input.len() {
            return Some(i);
        }
        match newline(input, i) {
            Some(e) => {
                return Some(e);
            },
            None => {
                i = i + 1;
            },
        }
    }
}

/// Recognizes a multi-line comment at `pos`.
pub fn multi_line_comment(input: &[char], pos: usize) -> (r: Option<usize>)
    ensures
        same_end(r, multi_line_comment_end(input@, pos as int)),
        r is Some ==> pos + 4 <= r->0 <= input@.len(),
{
    let n = input.len();
    if !has_pair(input, pos, '/', '*') {
        return None;
    }
    let mut i: usize = pos + 2;
    let mut depth: usize = 1;
    loop
        invariant
            n == input@.len(),
            pos + 2 <= i <= input@.len(),
            1 <= depth <= i,
            pair_at(input@, pos as int, '/', '*'),
            block_end(input@, i as int, depth as nat) == block_end(input@, pos + 2, 1),
        decreases input@.len() - i,
    {
        if has_pair(input, i, '*', '/') {
            if depth == 1 {
                return Some(i + 2);
            }
            depth = depth - 1;
            i = i + 2;
        } else if has_pair(input, i, '/', '*') {
            depth = depth + 1;
            i = i + 2;
        } else if i < input.len() && input.len() - i >= 2 {
            i = i + 1;
        } else {
            return None;
        }
    }
}

/// End of the single-line or multi-line comment that starts at `i`.
pub open spec fn plain_comment_end(s: Seq<char>, i: int) -> Option<int> {
    if single_line_comment_end(s, i) is Some {
        single_line_comment_end(s, i)
    } else {
        multi_line_comment_end(s, i)
    }
}

/// Recognizes a single-line or multi-line comment at `pos` and keeps its
/// text.
pub fn plain_comment(input: &[char], pos: usize) -> (r: Option<(usize, KdlComment)>)
    ensures
        r is Some <==> plain_comment_end(input@, pos as int) is Some,
        r is Some ==> {
            &&& r.unwrap().0 == plain_comment_end(input@, pos as int)->0
            &&& pos < r.unwrap().0 <= input@.len()
            &&& r.unwrap().1 is SingleLine <==> single_line_comment_end(input@, pos as int) is Some
            &&& r.unwrap().1 is MultiLine <==> single_line_comment_end(input@, pos as int) is None
            &&& crate::model::comment_raw(r.unwrap().1) == input@.subrange(pos as int, r.unwrap().0 as int)
        },
{
    match single_line_comment(input, pos) {
        Some(e) => Some((e, KdlComment::SingleLine(slice_text(input, pos, e)))),
        None => match multi_line_comment(input, pos) {
            Some(e) => Some((e, KdlComment::MultiLine(slice_text(input, pos, e)))),
            None => None,
        },
    }
}

} // verus!
