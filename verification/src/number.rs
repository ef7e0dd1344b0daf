//! Number literals: which texts are well-formed floating-point literals.

use crate::lexical::digits_end;
use crate::text::{characters, digit};
use vstd::prelude::*;

verus! {

/// A sign character.
pub open spec fn is_sign(c: char) -> bool {
    c == '+' || c == '-'
}

/// `c` is the letter given in its two cases.
pub open spec fn is_letter(c: char, lower: char, upper: char) -> bool {
    c == lower || c == upper
}

/// `s` spells `inf`, `nan` or `infinity`, in any mix of cases.
pub open spec fn is_special(s: Seq<char>) -> bool {
    ||| s.len() == 3 && is_letter(s[0], 'i', 'I') && is_letter(s[1], 'n', 'N') && is_letter(
        s[2],
        'f',
        'F',
    )
    ||| s.len() == 3 && is_letter(s[0], 'n', 'N') && is_letter(s[1], 'a', 'A') && is_letter(
        s[2],
        'n',
        'N',
    )
    ||| s.len() == 8 && is_letter(s[0], 'i', 'I') && is_letter(s[1], 'n', 'N') && is_letter(
        s[2],
        'f',
        'F',
    ) && is_letter(s[3], 'i', 'I') && is_letter(s[4], 'n', 'N') && is_letter(s[5], 'i', 'I')
        && is_letter(s[6], 't', 'T') && is_letter(s[7], 'y', 'Y')
}

/// From `pos` to the end, `s` holds an exponent: `e` or `E`, an optional
/// sign, and one or more digits.
pub open spec fn is_exponent(s: Seq<char>, pos: int) -> bool {
    pos < s.len() && is_letter(s[pos], 'e', 'E') && {
        let digits = if pos + 1 < s.len() && is_sign(s[pos + 1]) {
            pos + 2
        } else {
            pos + 1
        };
        digits < s.len() && digits_end(s, digits) == s.len()
    }
}

/// From `pos` to the end, `s` holds a decimal number: digits, optionally a
/// dot and further digits, with at least one digit on either side of the dot
/// or without it, and optionally an exponent.
pub open spec fn is_decimal(s: Seq<char>, pos: int) -> bool {
    let whole = digits_end(s, pos);
    let dotted = whole < s.len() && s[whole] == '.';
    let fraction = if dotted {
        whole + 1
    } else {
        whole
    };
    let end = if dotted {
        digits_end(s, fraction)
    } else {
        whole
    };
    (whole - pos) + (end - fraction) > 0 && (end == s.len() || is_exponent(s, end))
}

/// Where the unsigned part of `s` starts: after a leading sign, if there is one.
pub open spec fn unsigned_start(s: Seq<char>) -> int {
    if s.len() > 0 && is_sign(s[0]) {
        1
    } else {
        0
    }
}

/// Whether `s` is a well-formed floating-point literal: an optional sign,
/// then a decimal number or one of the words `inf`, `infinity` and `nan`.
pub open spec fn is_float_text(s: Seq<char>) -> bool {
    is_special(s.subrange(unsigned_start(s), s.len() as int)) || is_decimal(s, unsigned_start(s))
}

/// The end of the run of decimal digits that starts at `from`.
pub fn find_digits_end(chars: &Vec<char>, from: usize) -> (end: usize)
    requires
        from <= chars@.len(),
    ensures
        end == digits_end(chars@, from as int),
        from <= end <= chars@.len(),
{
    let mut i: usize = from;
    while i < chars.len() && digit(chars[i])
        invariant
            from <= i <= chars@.len(),
            digits_end(chars@, from as int) == digits_end(chars@, i as int),
        decreases chars@.len() - i,
    {
        i += 1;
    }
    i
}

fn letter(c: char, lower: char, upper: char) -> (r: bool)
    ensures
        r == is_letter(c, lower, upper),
{
    c == lower || c == upper
}

fn sign(c: char) -> (r: bool)
    ensures
        r == is_sign(c),
{
    c == '+' || c == '-'
}

fn special(chars: &Vec<char>, from: usize) -> (r: bool)
    requires
        from <= chars@.len(),
    ensures
        r == is_special(chars@.subrange(from as int, chars@.len() as int)),
{
    let n = chars.len() - from;
    let ghost s = chars@.subrange(from as int, chars@.len() as int);
    assert(forall|i: int| 0 <= i < s.len() ==> s[i] == chars@[from + i]);
    if n == 3 {
        (letter(chars[from], 'i', 'I') && letter(chars[from + 1], 'n', 'N') && letter(
            chars[from + 2],
            'f',
            'F',
        )) || (letter(chars[from], 'n', 'N') && letter(chars[from + 1], 'a', 'A') && letter(
            chars[from + 2],
            'n',
            'N',
        ))
    } else if n == 8 {
        letter(chars[from], 'i', 'I') && letter(chars[from + 1], 'n', 'N') && letter(
            chars[from + 2],
            'f',
            'F',
        ) && letter(chars[from + 3], 'i', 'I') && letter(chars[from + 4], 'n', 'N') && letter(
            chars[from + 5],
            'i',
            'I',
        ) && letter(chars[from + 6], 't', 'T') && letter(chars[from + 7], 'y', 'Y')
    } else {
        false
    }
}

fn exponent(chars: &Vec<char>, pos: usize) -> (r: bool)
    requires
        pos <= chars@.len(),
    ensures
        r == is_exponent(chars@, pos as int),
{
    let n = chars.len();
    if pos < n && letter(chars[pos], 'e', 'E') {
        let digits = if pos + 1 < n && sign(chars[pos + 1]) {
            pos + 2
        } else {
            pos + 1
        };
        digits < n && find_digits_end(chars, digits) == n
    } else {
        false
    }
}

fn decimal(chars: &Vec<char>, pos: usize) -> (r: bool)
    requires
        pos <= chars@.len(),
    ensures
        r == is_decimal(chars@, pos as int),
{
    let n = chars.len();
    let whole = find_digits_end(chars, pos);
    let dotted = whole < n && chars[whole] == '.';
    let fraction = if dotted {
        whole + 1
    } else {
        whole
    };
    let end = if dotted {
        find_digits_end(chars, fraction)
    } else {
        whole
    };
    (whole - pos) + (end - fraction) > 0 && (end == n || exponent(chars, end))
}

/// Whether `text` is a well-formed floating-point literal.
pub fn float_text(text: &str) -> (r: bool)
    ensures
        r == is_float_text(text@),
{
    let chars = characters(text);
    let start: usize = if chars.len() > 0 && sign(chars[0]) {
        1
    } else {
        0
    };
    special(&chars, start) || decimal(&chars, start)
}

} // verus!
