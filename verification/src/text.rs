//! Characters and strings: the classes of characters that the lexical
//! grammar speaks of, and the few operations on text that the scanner needs.

use vstd::prelude::*;
use vstd::std_specs::iter::IteratorSpec;
use vstd::string::StrSliceExecFns;

verus! {

/// For a character beyond ASCII: whether it has the Unicode `Alphabetic`
/// property, as std's tables decide.
pub uninterp spec fn alphabetic_beyond_ascii(c: char) -> bool;

/// For a character beyond ASCII: whether it is alphabetic or numeric in
/// Unicode's sense, as std's tables decide.
pub uninterp spec fn alphanumeric_beyond_ascii(c: char) -> bool;

/// A letter of the ASCII alphabet, in either case.
pub open spec fn is_ascii_letter(c: char) -> bool {
    ('a' <= c && c <= 'z') || ('A' <= c && c <= 'Z')
}

/// A decimal digit, `0` to `9`.
pub open spec fn is_digit(c: char) -> bool {
    '0' <= c && c <= '9'
}

/// An alphabetic character: within ASCII a letter, beyond it what Unicode
/// calls alphabetic.
pub open spec fn is_alphabetic(c: char) -> bool {
    if c <= '\x7f' {
        is_ascii_letter(c)
    } else {
        alphabetic_beyond_ascii(c)
    }
}

/// An alphabetic or numeric character: within ASCII a letter or a digit,
/// beyond it what Unicode calls alphabetic or numeric.
pub open spec fn is_alphanumeric(c: char) -> bool {
    if c <= '\x7f' {
        is_ascii_letter(c) || is_digit(c)
    } else {
        alphanumeric_beyond_ascii(c)
    }
}

/// `char::is_alphabetic` of std. Within ASCII it is true of the letters and
/// of nothing else; beyond ASCII its result is named, not defined.
pub assume_specification[ char::is_alphabetic ](c: char) -> (r: bool)
    ensures
        r == if c <= '\x7f' {
            is_ascii_letter(c)
        } else {
            alphabetic_beyond_ascii(c)
        },
;

/// `char::is_alphanumeric` of std. Within ASCII it is true of the letters
/// and the digits and of nothing else; beyond ASCII its result is named, not
/// defined.
pub assume_specification[ char::is_alphanumeric ](c: char) -> (r: bool)
    ensures
        r == if c <= '\x7f' {
            is_ascii_letter(c) || is_digit(c)
        } else {
            alphanumeric_beyond_ascii(c)
        },
;

/// `String::push` of std: appends one character.
pub assume_specification[ std::string::String::push ](s: &mut std::string::String, ch: char)
    ensures
        final(s)@ == old(s)@.push(ch),
;

/// A character that may begin an identifier.
pub open spec fn is_identifier_start(c: char) -> bool {
    is_alphabetic(c) || c == '_'
}

/// A character that may continue an identifier.
pub open spec fn is_identifier_part(c: char) -> bool {
    is_alphanumeric(c) || c == '_'
}

/// Whether `c` is a decimal digit.
pub fn digit(c: char) -> (r: bool)
    ensures
        r == is_digit(c),
{
    '0' <= c && c <= '9'
}

/// Whether `c` may begin an identifier.
pub fn identifier_start(c: char) -> (r: bool)
    ensures
        r == is_identifier_start(c),
{
    c.is_alphabetic() || c == '_'
}

/// Whether `c` may continue an identifier.
pub fn identifier_part(c: char) -> (r: bool)
    ensures
        r == is_identifier_part(c),
{
    c.is_alphanumeric() || c == '_'
}

/// The characters of `s`, in order.
pub fn characters(s: &str) -> (v: Vec<char>)
    ensures
        v@ == s@,
{
    broadcast use vstd::string::group_string_axioms;

    let mut v: Vec<char> = Vec::new();
    let mut rest = s.chars();
    loop
        invariant
            v@ + rest.remaining() == s@,
        ensures
            v@ == s@,
        decreases s@.len() - v@.len(),
    {
        match rest.next() {
            Some(c) => {
                v.push(c);
            },
            None => {
                assert(v@ + rest.remaining() =~= v@);
                break ;
            },
        }
    }
    v
}

/// The text that `chars` holds from index `from` up to, not including, `to`.
pub fn slice_text(chars: &Vec<char>, from: usize, to: usize) -> (r: String)
    requires
        from <= to <= chars@.len(),
    ensures
        r@ == chars@.subrange(from as int, to as int),
{
    let mut r = String::new();
    let mut i: usize = from;
    while i < to
        invariant
            from <= i <= to <= chars@.len(),
            r@ == chars@.subrange(from as int, i as int),
        decreases to - i,
    {
        r.push(chars[i]);
        i += 1;
        assert(r@ =~= chars@.subrange(from as int, i as int));
    }
    r
}

/// Whether `chars` spells exactly `word`.
pub fn spells(chars: &Vec<char>, word: &str) -> (r: bool)
    ensures
        r == (chars@ == word@),
{
    let n = word.unicode_len();
    if chars.len() != n {
        return false;
    }
    let mut i: usize = 0;
    while i < n
        invariant
            i <= n,
            n == chars@.len(),
            n == word@.len(),
            forall|j: int| 0 <= j < i ==> chars@[j] == word@[j],
        decreases n - i,
    {
        if chars[i] != word.get_char(i) {
            return false;
        }
        i += 1;
    }
    assert(chars@ =~= word@);
    true
}

} // verus!
