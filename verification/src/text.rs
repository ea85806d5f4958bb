//! Conversions between strings and the character sequences that the
//! recognizers read.

use vstd::prelude::*;

verus! {

/// A Unicode scalar value: a code point outside the surrogate range.
pub open spec fn is_scalar_value(v: int) -> bool {
    (0 <= v <= 0xD7FF) || (0xE000 <= v <= 0x10FFFF)
}

/// `String::push` appends the one character to the end of the string.
pub assume_specification[ std::string::String::push ](s: &mut std::string::String, c: char)
    ensures
        final(s)@ == old(s)@.push(c),
;

/// `char::from_u32` gives the character with the code point `i` where `i`
/// is a Unicode scalar value, and `None` for every other number.
pub assume_specification[ char::from_u32 ](i: u32) -> (r: Option<char>)
    ensures
        match r {
            Some(c) => is_scalar_value(i as int) && c as int == i as int,
            None => !is_scalar_value(i as int),
        },
;

/// The characters of `input` from `from` up to `to`, as a string.
pub fn slice_text(input: &[char], from: usize, to: usize) -> (r: String)
    requires
        from <= to <= input@.len(),
    ensures
        r@ == input@.subrange(from as int, to as int),
{
    let mut out = String::new();
    let mut i: usize = from;
    while i < to
        invariant
            from <= i <= to <= input@.len(),
            out@ == input@.subrange(from as int, i as int),
        decreases to - i,
    {
        out.push(input[i]);
        i = i + 1;
        assert(out@ =~= input@.subrange(from as int, i as int));
    }
    out
}

/// The characters of `input`, in order.
pub fn chars_of(input: &str) -> (r: Vec<char>)
    ensures
        r@ == input@,
{
    let mut out: Vec<char> = Vec::new();
    for c in it: input.chars()
        invariant
            it.seq() == input@,
            out@ == input@.subrange(0, it.index() as int),
    {
        out.push(c);
        assert(out@ =~= input@.subrange(0, it.index() + 1));
    }
    assert(input@.subrange(0, input@.len() as int) =~= input@);
    out
}

} // verus!
