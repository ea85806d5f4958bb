//! Values: escaped strings, numbers in four bases, booleans and null; and
//! identifiers.

use vstd::prelude::*;
use crate::comment::{pair_at, has_pair};
use crate::lexical::{is_unicode_space, is_newline_char, is_space, is_line_break};
use crate::model::{KdlValue, KdlString, value_raw, true_text, false_text, null_text};
use crate::text::{slice_text, is_scalar_value};

verus! {

/// `c` is a hexadecimal digit, in either case.
pub open spec fn is_hex_digit(c: char) -> bool {
    ('0' <= c && c <= '9') || ('a' <= c && c <= 'f') || ('A' <= c && c <= 'F')
}

/// The number that the hexadecimal digit `c` writes.
pub open spec fn hex_digit_value(c: char) -> int {
    if '0' <= c && c <= '9' {
        c as int - '0' as int
    } else if 'a' <= c && c <= 'f' {
        c as int - 'a' as int + 10
    } else {
        c as int - 'A' as int + 10
    }
}

/// Number of hexadecimal digits that stand at `i`, counted up to `max`.
pub open spec fn hex_run_len(s: Seq<char>, i: int, max: nat) -> nat
    decreases max,
{
    if max == 0 || i < 0 || i >= s.len() || !is_hex_digit(s[i]) {
        0
    } else {
        1 + hex_run_len(s, i + 1, (max - 1) as nat)
    }
}

/// The number that the `n` hexadecimal digits at `i` write.
pub open spec fn hex_value(s: Seq<char>, i: int, n: nat) -> int
    decreases n,
{
    if n == 0 {
        0
    } else {
        hex_value(s, i, (n - 1) as nat) * 16 + hex_digit_value(s[i + n - 1])
    }
}

/// The largest number that `k` hexadecimal digits write, for `k` up to 6.
pub open spec fn hex_bound(k: nat) -> int {
    if k == 0 {
        0
    } else if k == 1 {
        0xF
    } else if k == 2 {
        0xFF
    } else if k == 3 {
        0xFFF
    } else if k == 4 {
        0xFFFF
    } else if k == 5 {
        0xF_FFFF
    } else {
        0xFF_FFFF
    }
}

/// The character that a single-character escape stands for.
pub open spec fn escape_of(c: char) -> Option<char> {
    if c == '"' {
        Some('"')
    } else if c == '\\' {
        Some('\\')
    } else if c == '/' {
        Some('/')
    } else if c == 'b' {
        Some('\u{08}')
    } else if c == 'f' {
        Some('\u{0C}')
    } else if c == 'n' {
        Some('\n')
    } else if c == 'r' {
        Some('\r')
    } else if c == 't' {
        Some('\t')
    } else {
        None
    }
}

/// The character with the code point `v`, for a Unicode scalar value `v`.
pub open spec fn char_of(v: int) -> char
    recommends
        is_scalar_value(v),
{
    v as char
}

/// The code point written at `i` by one to six hexadecimal digits, and the
/// position behind them. `None` where no digit stands, or where the number
/// is no Unicode scalar value.
pub open spec fn unicode_at(s: Seq<char>, i: int) -> Option<(char, int)> {
    let n = hex_run_len(s, i, 6);
    if n >= 1 && is_scalar_value(hex_value(s, i, n)) {
        Some((char_of(hex_value(s, i, n)), i + n))
    } else {
        None
    }
}

/// The escape that follows a backslash, at `j`: a bracketed code point, or
/// one of the single-character escapes.
pub open spec fn escape_at(s: Seq<char>, j: int) -> Option<(char, int)> {
    if j < 0 || j >= s.len() {
        None
    } else if pair_at(s, j, 'u', '{') {
        match unicode_at(s, j + 2) {
            Some((c, e)) => if e < s.len() && s[e] == '}' {
                Some((c, e + 1))
            } else {
                None
            },
            None => None,
        }
    } else {
        match escape_of(s[j]) {
            Some(c) => Some((c, j + 1)),
            None => None,
        }
    }
}

/// One character of a string at `i`: an escape, or any character but a
/// backslash and a quote. Gives the decoded character and the position
/// behind its spelling.
pub open spec fn character_at(s: Seq<char>, i: int) -> Option<(char, int)> {
    if i < 0 || i >= s.len() {
        None
    } else if s[i] == '\\' {
        escape_at(s, i + 1)
    } else if s[i] == '"' {
        None
    } else {
        Some((s[i], i + 1))
    }
}

/// `d` in front of the decoded text of a result.
pub open spec fn prepend(d: Seq<char>, r: Option<(Seq<char>, int)>) -> Option<(Seq<char>, int)> {
    match r {
        Some((t, q)) => Some((d + t, q)),
        None => None,
    }
}

/// The rest of a string from `i`: the decoded characters up to the closing
/// quote, and the position behind that quote.
pub open spec fn string_tail(s: Seq<char>, i: int) -> Option<(Seq<char>, int)>
    decreases s.len() - i,
{
    match character_at(s, i) {
        Some((c, e)) => if i < e <= s.len() {
            prepend(seq![c], string_tail(s, e))
        } else {
            None
        },
        None => if 0 <= i < s.len() && s[i] == '"' {
            Some((Seq::empty(), i + 1))
        } else {
            None
        },
    }
}

/// The string that starts at `i`: its decoded value and the position behind
/// its closing quote.
pub open spec fn string_at(s: Seq<char>, i: int) -> Option<(Seq<char>, int)> {
    if 0 <= i < s.len() && s[i] == '"' {
        string_tail(s, i + 1)
    } else {
        None
    }
}

/// The value that a string's verbatim spelling decodes to, if the spelling
/// is one complete string.
pub open spec fn decode(original: Seq<char>) -> Option<Seq<char>> {
    match string_at(original, 0) {
        Some((d, q)) => if q == original.len() {
            Some(d)
        } else {
            None
        },
        None => None,
    }
}

/// A run of hexadecimal digits that ends inside a part of `s` is the same
/// run in that part.
proof fn lemma_hex_run_local(s: Seq<char>, a: int, b: int, j: int, max: nat)
    requires
        0 <= a <= j,
        j + hex_run_len(s, j, max) < b <= s.len(),
    ensures
        hex_run_len(s.subrange(a, b), j - a, max) == hex_run_len(s, j, max),
    decreases max,
{
    if max > 0 && is_hex_digit(s[j]) {
        lemma_hex_run_local(s, a, b, j + 1, (max - 1) as nat);
    }
}

/// Digits inside a part of `s` write the same number in that part.
proof fn lemma_hex_value_local(s: Seq<char>, a: int, b: int, j: int, n: nat)
    requires
        0 <= a <= j,
        j + n <= b <= s.len(),
    ensures
        hex_value(s.subrange(a, b), j - a, n) == hex_value(s, j, n),
    decreases n,
{
    if n > 0 {
        lemma_hex_value_local(s, a, b, j, (n - 1) as nat);
    }
}

/// A character of a string that ends inside a part of `s` is the same
/// character in that part.
proof fn lemma_character_local(s: Seq<char>, a: int, b: int, i: int)
    requires
        0 <= a <= i,
        b <= s.len(),
        character_at(s, i) is Some,
        character_at(s, i).unwrap().1 <= b,
    ensures
        character_at(s.subrange(a, b), i - a) == Some(
            (character_at(s, i).unwrap().0, character_at(s, i).unwrap().1 - a),
        ),
        i < character_at(s, i).unwrap().1,
{
    if s[i] == '\\' && pair_at(s, i + 1, 'u', '{') {
        let n = hex_run_len(s, i + 3, 6);
        lemma_hex_run_local(s, a, b, i + 3, 6);
        lemma_hex_value_local(s, a, b, i + 3, n);
    }
}

/// A string found in a text is found again in its own spelling: the part
/// of `s` from `a` to `b` holds the same rest of a string as `s` does, where
/// that rest ends by `b`.
proof fn lemma_string_tail_local(s: Seq<char>, a: int, b: int, i: int)
    requires
        0 <= a <= i,
        b <= s.len(),
        string_tail(s, i) is Some,
        string_tail(s, i).unwrap().1 <= b,
    ensures
        string_tail(s.subrange(a, b), i - a) == Some(
            (string_tail(s, i).unwrap().0, string_tail(s, i).unwrap().1 - a),
        ),
        i < string_tail(s, i).unwrap().1,
    decreases s.len() - i,
{
    match character_at(s, i) {
        Some((c, e)) => {
            lemma_string_tail_local(s, a, b, e);
            lemma_character_local(s, a, b, i);
        },
        None => {},
    }
}

/// Decoding the verbatim spelling of a string gives its decoded value
/// again: for the string that stands at `i` in `s`, the text from `i` to
/// its end is one complete string with the same value.
pub proof fn lemma_decode_stability(s: Seq<char>, i: int)
    requires
        string_at(s, i) is Some,
    ensures
        i < string_at(s, i).unwrap().1 <= s.len(),
        decode(s.subrange(i, string_at(s, i).unwrap().1)) == Some(string_at(s, i).unwrap().0),
{
    lemma_string_tail_end(s, i + 1);
    let q = string_at(s, i).unwrap().1;
    lemma_string_tail_local(s, i, q, i + 1);
}

/// The rest of a string ends behind where it starts, inside the text.
proof fn lemma_string_tail_end(s: Seq<char>, i: int)
    requires
        string_tail(s, i) is Some,
    ensures
        i < string_tail(s, i).unwrap().1 <= s.len(),
    decreases s.len() - i,
{
    match character_at(s, i) {
        Some((c, e)) => {
            lemma_string_tail_end(s, e);
        },
        None => {},
    }
}

/// The number that `c` writes as a hexadecimal digit, if it is one.
pub fn hex_digit(c: char) -> (r: Option<u32>)
    ensures
        r is Some <==> is_hex_digit(c),
        r is Some ==> r->0 == hex_digit_value(c) && r->0 < 16,
{
    if '0' <= c && c <= '9' {
        Some(c as u32 - '0' as u32)
    } else if 'a' <= c && c <= 'f' {
        Some(c as u32 - 'a' as u32 + 10)
    } else if 'A' <= c && c <= 'F' {
        Some(c as u32 - 'A' as u32 + 10)
    } else {
        None
    }
}

/// The character that the single-character escape `c` stands for.
pub fn escape_char(c: char) -> (r: Option<char>)
    ensures
        r == escape_of(c),
{
    if c == '"' {
        Some('"')
    } else if c == '\\' {
        Some('\\')
    } else if c == '/' {
        Some('/')
    } else if c == 'b' {
        Some('\u{08}')
    } else if c == 'f' {
        Some('\u{0C}')
    } else if c == 'n' {
        Some('\n')
    } else if c == 'r' {
        Some('\r')
    } else if c == 't' {
        Some('\t')
    } else {
        None
    }
}

/// Reads one to six hexadecimal digits at `pos` as a code point.
pub fn unicode(input: &[char], pos: usize) -> (r: Option<(usize, char)>)
    ensures
        r is Some <==> unicode_at(input@, pos as int) is Some,
        r is Some ==> r.unwrap().1 == unicode_at(input@, pos as int).unwrap().0 && r.unwrap().0
            == unicode_at(input@, pos as int).unwrap().1 && pos < r.unwrap().0 <= input@.len(),
{
    let n = input.len();
    let ghost s = input@;
    let mut k: usize = 0;
    let mut v: u32 = 0;
    let mut done = false;
    while !done
        invariant
            n == s.len(),
            s == input@,
            k <= 6,
            pos + k <= n || k == 0,
            v == hex_value(s, pos as int, k as nat),
            v <= hex_bound(k as nat),
            hex_run_len(s, pos as int, 6) == k + hex_run_len(s, pos + k, (6 - k) as nat),
            done ==> hex_run_len(s, pos + k, (6 - k) as nat) == 0,
        decreases (6 - k) + (if done { 0int } else { 1int }),
    {
        if k < 6 && pos < n && k < n - pos {
            match hex_digit(input[pos + k]) {
                Some(d) => {
                    v = v * 16 + d;
                    k = k + 1;
                },
                None => {
                    done = true;
                },
            }
        } else {
            done = true;
        }
    }
    if k == 0 {
        return None;
    }
    match char::from_u32(v) {
        Some(c) => {
            assert(c as int == v);
            assert((c as int) as char == c);
            Some((pos + k, c))
        },
        None => None,
    }
}

/// Reads the escape behind a backslash, at `pos`.
pub fn escape(input: &[char], pos: usize) -> (r: Option<(usize, char)>)
    ensures
        r is Some <==> escape_at(input@, pos as int) is Some,
        r is Some ==> r.unwrap().1 == escape_at(input@, pos as int).unwrap().0 && r.unwrap().0
            == escape_at(input@, pos as int).unwrap().1 && pos < r.unwrap().0 <= input@.len(),
{
    let n = input.len();
    if pos >= n {
        return None;
    }
    if has_pair(input, pos, 'u', '{') {
        match unicode(input, pos + 2) {
            Some((e, c)) => {
                if e < n && input[e] == '}' {
                    Some((e + 1, c))
                } else {
                    None
                }
            },
            None => None,
        }
    } else {
        match escape_char(input[pos]) {
            Some(c) => Some((pos + 1, c)),
            None => None,
        }
    }
}

/// Reads one character of a string at `pos`: the position behind its
/// spelling, and the character it stands for.
pub fn character(input: &[char], pos: usize) -> (r: Option<(usize, char)>)
    ensures
        r is Some <==> character_at(input@, pos as int) is Some,
        r is Some ==> r.unwrap().1 == character_at(input@, pos as int).unwrap().0 && r.unwrap().0
            == character_at(input@, pos as int).unwrap().1 && pos < r.unwrap().0 <= input@.len(),
{
    let n = input.len();
    if pos >= n {
        None
    } else if input[pos] == '\\' {
        escape(input, pos + 1)
    } else if input[pos] == '"' {
        None
    } else {
        Some((pos + 1, input[pos]))
    }
}

/// Reads an escaped string at `pos`: the position behind its closing quote,
/// its decoded value and its verbatim spelling.
pub fn string(input: &[char], pos: usize) -> (r: Option<(usize, KdlValue)>)
    ensures
        r is Some <==> string_at(input@, pos as int) is Some,
        r is Some ==> {
            &&& r.unwrap().0 == string_at(input@, pos as int).unwrap().1
            &&& pos < r.unwrap().0 <= input@.len()
            &&& r.unwrap().1 is String
            &&& r.unwrap().1->String_0.value@ == string_at(input@, pos as int).unwrap().0
            &&& r.unwrap().1->String_0.original@ == input@.subrange(
                pos as int,
                r.unwrap().0 as int,
            )
            &&& decode(r.unwrap().1->String_0.original@) == Some(r.unwrap().1->String_0.value@)
        },
{
    let n = input.len();
    if pos >= n || input[pos] != '"' {
        return None;
    }
    let ghost s = input@;
    let mut value = String::new();
    let mut i: usize = pos + 1;
    loop
        invariant
            n == s.len(),
            s == input@,
            pos < i <= n,
            s[pos as int] == '"',
            string_tail(s, pos + 1) == prepend(value@, string_tail(s, i as int)),
        decreases n - i,
    {
        match character(input, i) {
            Some((e, c)) => {
                proof {
                    let rest = string_tail(s, e as int);
                    assert(string_tail(s, i as int) == prepend(seq![c], rest));
                    if let Some((t, q)) = rest {
                        assert(value@ + (seq![c] + t) =~= value@.push(c) + t);
                    }
                }
                value.push(c);
                i = e;
            },
            None => {
                if i < n && input[i] == '"' {
                    proof {
                        assert(value@ + Seq::<char>::empty() =~= value@);
                        lemma_decode_stability(s, pos as int);
                    }
                    let original = slice_text(input, pos, i + 1);
                    return Some((i + 1, KdlValue::String(KdlString { value, original })));
                } else {
                    return None;
                }
            },
        }
    }
}

/// `c` is a digit of base 2, 8, 10 or 16.
pub open spec fn is_base_digit(c: char, base: int) -> bool {
    if base == 16 {
        is_hex_digit(c)
    } else if base == 10 {
        '0' <= c && c <= '9'
    } else if base == 8 {
        '0' <= c && c <= '7'
    } else {
        c == '0' || c == '1'
    }
}

/// End of the run of digits of `base` and underscores that starts at `i`.
pub open spec fn digit_run_end(s: Seq<char>, i: int, base: int) -> int
    decreases s.len() - i,
{
    if 0 <= i < s.len() && (is_base_digit(s[i], base) || s[i] == '_') {
        digit_run_end(s, i + 1, base)
    } else {
        i
    }
}

/// 1 where a sign stands at `i`, else 0.
pub open spec fn sign_len(s: Seq<char>, i: int) -> int {
    if 0 <= i < s.len() && (s[i] == '+' || s[i] == '-') {
        1
    } else {
        0
    }
}

/// The base that the prefix at `j` announces, 10 where there is none.
pub open spec fn prefix_base(s: Seq<char>, j: int) -> int {
    if pair_at(s, j, '0', 'x') {
        16
    } else if pair_at(s, j, '0', 'o') {
        8
    } else if pair_at(s, j, '0', 'b') {
        2
    } else {
        10
    }
}

/// The number that starts at `i`, as its base and the position behind it:
/// an optional sign, then a prefix with a digit of its base, or else a
/// decimal digit, then digits and underscores.
pub open spec fn number_at(s: Seq<char>, i: int) -> Option<(int, int)> {
    let j = i + sign_len(s, i);
    let b = prefix_base(s, j);
    if b != 10 && j + 2 < s.len() && is_base_digit(s[j + 2], b) {
        Some((b, digit_run_end(s, j + 3, b)))
    } else if 0 <= j < s.len() && is_base_digit(s[j], 10) {
        Some((10, digit_run_end(s, j + 1, 10)))
    } else {
        None
    }
}

/// The four characters `a`, `b`, `c`, `d` stand at `i`.
pub open spec fn word4_at(s: Seq<char>, i: int, a: char, b: char, c: char, d: char) -> bool {
    pair_at(s, i, a, b) && pair_at(s, i + 2, c, d)
}

/// The keyword `true` stands at `i`.
pub open spec fn true_at(s: Seq<char>, i: int) -> bool {
    word4_at(s, i, 't', 'r', 'u', 'e')
}

/// The keyword `false` stands at `i`.
pub open spec fn false_at(s: Seq<char>, i: int) -> bool {
    word4_at(s, i, 'f', 'a', 'l', 's') && i + 4 < s.len() && s[i + 4] == 'e'
}

/// The keyword `null` stands at `i`.
pub open spec fn null_at(s: Seq<char>, i: int) -> bool {
    word4_at(s, i, 'n', 'u', 'l', 'l')
}

/// `v` is the value written at `i`, and `end` the position behind it. A
/// string, a number and a keyword start with different characters, so at
/// most one of them stands at `i`.
pub open spec fn value_at(s: Seq<char>, i: int, v: KdlValue, end: int) -> bool {
    let piece = s.subrange(i, end);
    if string_at(s, i) is Some {
        &&& end == string_at(s, i).unwrap().1
        &&& v is String
        &&& v->String_0.value@ == string_at(s, i).unwrap().0
        &&& v->String_0.original@ == piece
        &&& decode(v->String_0.original@) == Some(v->String_0.value@)
    } else if number_at(s, i) is Some {
        let base = number_at(s, i).unwrap().0;
        &&& end == number_at(s, i).unwrap().1
        &&& match v {
            KdlValue::Base2(t) => base == 2 && t@ == piece,
            KdlValue::Base8(t) => base == 8 && t@ == piece,
            KdlValue::Base10(t) => base == 10 && t@ == piece,
            KdlValue::Base16(t) => base == 16 && t@ == piece,
            _ => false,
        }
    } else if true_at(s, i) {
        end == i + 4 && v == KdlValue::Bool(true)
    } else if false_at(s, i) {
        end == i + 5 && v == KdlValue::Bool(false)
    } else if null_at(s, i) {
        end == i + 4 && v == KdlValue::Null
    } else {
        false
    }
}

/// Position behind the value written at `i`, if one is.
pub open spec fn value_end(s: Seq<char>, i: int) -> Option<int> {
    if string_at(s, i) is Some {
        Some(string_at(s, i).unwrap().1)
    } else if number_at(s, i) is Some {
        Some(number_at(s, i).unwrap().1)
    } else if true_at(s, i) || null_at(s, i) {
        Some(i + 4)
    } else if false_at(s, i) {
        Some(i + 5)
    } else {
        None
    }
}

/// Every character of `t` from `from` on is a digit of `base` or an
/// underscore.
pub open spec fn digits_from(t: Seq<char>, from: int, base: int) -> bool {
    forall|k: int| from <= k < t.len() ==> is_base_digit(#[trigger] t[k], base) || t[k] == '_'
}

/// A run of digits holds digits and underscores only, and ends inside the
/// text.
proof fn lemma_digit_run(s: Seq<char>, j: int, base: int)
    requires
        0 <= j,
    ensures
        j <= digit_run_end(s, j, base),
        j <= s.len() ==> digit_run_end(s, j, base) <= s.len(),
        forall|k: int|
            j <= k < digit_run_end(s, j, base) ==> is_base_digit(#[trigger] s[k], base) || s[k]
                == '_',
    decreases s.len() - j,
{
    if j < s.len() && (is_base_digit(s[j], base) || s[j] == '_') {
        lemma_digit_run(s, j + 1, base);
    }
}

/// The text of a number matches the character class of its base: behind
/// the sign, and behind the prefix where the base has one, the number that
/// stands at `i` holds digits of its base and underscores only, and at
/// least one digit.
pub proof fn lemma_number_text(s: Seq<char>, i: int)
    requires
        0 <= i,
        number_at(s, i) is Some,
    ensures
        ({
            let base = number_at(s, i).unwrap().0;
            let end = number_at(s, i).unwrap().1;
            let digits = i + sign_len(s, i) + if base == 10 {
                0int
            } else {
                2int
            };
            &&& base == 2 || base == 8 || base == 10 || base == 16
            &&& digits < end <= s.len()
            &&& is_base_digit(s[digits], base)
            &&& digits_from(s.subrange(i, end), digits - i, base)
        }),
{
    let j = i + sign_len(s, i);
    let base = number_at(s, i).unwrap().0;
    if base != 10 {
        lemma_digit_run(s, j + 3, base);
    } else {
        lemma_digit_run(s, j + 1, base);
    }
}

/// Tells whether `c` is a digit of `base`.
pub fn base_digit(c: char, base: u8) -> (r: bool)
    ensures
        r == is_base_digit(c, base as int),
{
    if base == 16 {
        hex_digit(c).is_some()
    } else if base == 10 {
        '0' <= c && c <= '9'
    } else if base == 8 {
        '0' <= c && c <= '7'
    } else {
        c == '0' || c == '1'
    }
}

/// Position behind the digits of `base` and underscores from `pos`.
pub fn skip_digits(input: &[char], pos: usize, base: u8) -> (end: usize)
    requires
        pos <= input@.len(),
    ensures
        end == digit_run_end(input@, pos as int, base as int),
        pos <= end <= input@.len(),
{
    let mut i: usize = pos;
    while i < input.len() && (base_digit(input[i], base) || input[i] == '_')
        invariant
            pos <= i <= input@.len(),
            digit_run_end(input@, i as int, base as int) == digit_run_end(
                input@,
                pos as int,
                base as int,
            ),
        decreases input@.len() - i,
    {
        i = i + 1;
    }
    i
}

/// Recognizes a number at `pos`: its base and the position behind it.
pub fn number(input: &[char], pos: usize) -> (r: Option<(u8, usize)>)
    ensures
        r is Some <==> number_at(input@, pos as int) is Some,
        r is Some ==> r.unwrap().0 == number_at(input@, pos as int).unwrap().0 && r.unwrap().1
            == number_at(input@, pos as int).unwrap().1 && pos < r.unwrap().1 <= input@.len(),
{
    let n = input.len();
    if pos >= n {
        return None;
    }
    let j: usize = if input[pos] == '+' || input[pos] == '-' {
        pos + 1
    } else {
        pos
    };
    let b: u8 = if has_pair(input, j, '0', 'x') {
        16
    } else if has_pair(input, j, '0', 'o') {
        8
    } else if has_pair(input, j, '0', 'b') {
        2
    } else {
        10
    };
    if b != 10 && n - j > 2 && base_digit(input[j + 2], b) {
        Some((b, skip_digits(input, j + 3, b)))
    } else if j < n && base_digit(input[j], 10) {
        Some((10, skip_digits(input, j + 1, 10)))
    } else {
        None
    }
}

/// Recognizes the keyword `true` or `false` at `pos`.
pub fn boolean(input: &[char], pos: usize) -> (r: Option<(usize, KdlValue)>)
    ensures
        r is Some <==> true_at(input@, pos as int) || false_at(input@, pos as int),
        true_at(input@, pos as int) ==> r == Some((((pos + 4) as usize), KdlValue::Bool(true))),
        false_at(input@, pos as int) ==> r == Some((((pos + 5) as usize), KdlValue::Bool(false))),
{
    let n = input.len();
    if has_pair(input, pos, 't', 'r') && has_pair(input, pos + 2, 'u', 'e') {
        Some((pos + 4, KdlValue::Bool(true)))
    } else if has_pair(input, pos, 'f', 'a') && has_pair(input, pos + 2, 'l', 's') && pos + 4 < n
        && input[pos + 4] == 'e' {
        Some((pos + 5, KdlValue::Bool(false)))
    } else {
        None
    }
}

/// Recognizes the keyword `null` at `pos`.
pub fn null(input: &[char], pos: usize) -> (r: Option<(usize, KdlValue)>)
    ensures
        r is Some <==> null_at(input@, pos as int),
        r is Some ==> r == Some((((pos + 4) as usize), KdlValue::Null)),
{
    let n = input.len();
    if has_pair(input, pos, 'n', 'u') && has_pair(input, pos + 2, 'l', 'l') {
        Some((pos + 4, KdlValue::Null))
    } else {
        None
    }
}

/// Reads the value at `pos`: a string, a number, a boolean or null.
pub fn value(input: &[char], pos: usize) -> (r: Option<(usize, KdlValue)>)
    ensures
        r is Some <==> value_end(input@, pos as int) is Some,
        r is Some ==> {
            &&& r.unwrap().0 == value_end(input@, pos as int).unwrap()
            &&& pos < r.unwrap().0 <= input@.len()
            &&& value_at(input@, pos as int, r.unwrap().1, r.unwrap().0 as int)
            &&& value_raw(r.unwrap().1) == input@.subrange(pos as int, r.unwrap().0 as int)
        },
{
    let ghost s = input@;
    let n = input.len();
    if let Some(found) = string(input, pos) {
        return Some(found);
    }
    if let Some((base, end)) = number(input, pos) {
        let text = slice_text(input, pos, end);
        let v = if base == 2 {
            KdlValue::Base2(text)
        } else if base == 8 {
            KdlValue::Base8(text)
        } else if base == 16 {
            KdlValue::Base16(text)
        } else {
            KdlValue::Base10(text)
        };
        return Some((end, v));
    }
    if let Some(found) = boolean(input, pos) {
        proof {
            assert(true_at(s, pos as int) ==> s.subrange(pos as int, pos + 4) =~= true_text());
            assert(false_at(s, pos as int) ==> s.subrange(pos as int, pos + 5) =~= false_text());
        }
        return Some(found);
    }
    if let Some(found) = null(input, pos) {
        proof {
            assert(s.subrange(pos as int, pos + 4) =~= null_text());
        }
        return Some(found);
    }
    None
}

/// `c` may stand in an identifier.
pub open spec fn is_identifier_char(c: char) -> bool {
    c > ' ' && !is_unicode_space(c) && !is_newline_char(c) && c != '\\' && c != '/' && c != '('
        && c != ')' && c != '{' && c != '}' && c != '<' && c != '>' && c != ';' && c != '['
        && c != ']' && c != '=' && c != ',' && c != '"'
}

/// End of the run of identifier characters that starts at `i`.
pub open spec fn identifier_run_end(s: Seq<char>, i: int) -> int
    decreases s.len() - i,
{
    if 0 <= i < s.len() && is_identifier_char(s[i]) {
        identifier_run_end(s, i + 1)
    } else {
        i
    }
}

/// End of the identifier that starts at `i`: identifier characters, the
/// first of them no decimal digit.
pub open spec fn identifier_end(s: Seq<char>, i: int) -> Option<int> {
    if 0 <= i < s.len() && is_identifier_char(s[i]) && !is_base_digit(s[i], 10) {
        Some(identifier_run_end(s, i + 1))
    } else {
        None
    }
}

/// Tells whether `c` may stand in an identifier.
pub fn identifier_char(c: char) -> (r: bool)
    ensures
        r == is_identifier_char(c),
{
    c > ' ' && !is_space(c) && !is_line_break(c) && c != '\\' && c != '/' && c != '(' && c != ')'
        && c != '{' && c != '}' && c != '<' && c != '>' && c != ';' && c != '[' && c != ']'
        && c != '=' && c != ',' && c != '"'
}

/// Recognizes an identifier at `pos`.
pub fn identifier(input: &[char], pos: usize) -> (r: Option<usize>)
    ensures
        crate::comment::same_end(r, identifier_end(input@, pos as int)),
        r is Some ==> pos < r->0 <= input@.len(),
{
    let n = input.len();
    if pos < n && identifier_char(input[pos]) && !base_digit(input[pos], 10) {
        let mut i: usize = pos + 1;
        while i < n && identifier_char(input[i])
            invariant
                n == input@.len(),
                pos < i <= n,
                identifier_run_end(input@, i as int) == identifier_run_end(input@, pos + 1),
            decreases n - i,
        {
            i = i + 1;
        }
        Some(i)
    } else {
        None
    }
}

} // verus!
