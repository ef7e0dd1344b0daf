//! The lexical grammar, as specification: what lexeme stands at a position
//! of a source text, and what tokens a whole text has.

use crate::fault::Fault;
use crate::text::{is_digit, is_identifier_part, is_identifier_start};
use crate::token::{TokenType, TokenView};
use vstd::prelude::*;

verus! {

/// What stands at one position of a source text.
pub enum Lexeme {
    /// A token of kind `kind` whose lexeme is the text from `from` up to, not
    /// including, `to`. Scanning goes on at `next`.
    Token { kind: TokenType, from: int, to: int, next: int },
    /// Text that yields no token: a blank, a newline or a comment. Scanning
    /// goes on at `next`, `lines` lines further down.
    Skip { next: int, lines: int },
    /// A lexical fault, with its message.
    Fault { message: Seq<char> },
}

/// The end of the longest run of characters that satisfy `accepts`, starting
/// at `pos`: the first index at or after `pos` whose character does not, or
/// the length of `s` when there is none.
pub open spec fn run_end(s: Seq<char>, pos: int, accepts: spec_fn(char) -> bool) -> int
    decreases s.len() - pos,
{
    if 0 <= pos < s.len() && accepts(s[pos]) {
        run_end(s, pos + 1, accepts)
    } else {
        pos
    }
}

/// The index of the newline that ends the line of `pos`, or the length of `s`.
pub open spec fn line_end(s: Seq<char>, pos: int) -> int {
    run_end(s, pos, |c: char| c != '\n')
}

/// Where the string that follows an opening quote stops: the index of the
/// next quote or newline at or after `pos`, or the length of `s`.
pub open spec fn string_stop(s: Seq<char>, pos: int) -> int {
    run_end(s, pos, |c: char| c != '"' && c != '\n')
}

/// The end of the run of decimal digits that starts at `pos`.
pub open spec fn digits_end(s: Seq<char>, pos: int) -> int {
    run_end(s, pos, |c: char| is_digit(c))
}

/// The end of the number literal that starts at `pos`: a run of digits, and
/// after it a dot with a further run of digits where a digit follows the dot.
pub open spec fn number_end(s: Seq<char>, pos: int) -> int {
    let whole = digits_end(s, pos);
    if whole + 1 < s.len() && s[whole] == '.' && is_digit(s[whole + 1]) {
        digits_end(s, whole + 1)
    } else {
        whole
    }
}

/// The end of the identifier that starts at `pos`.
pub open spec fn identifier_end(s: Seq<char>, pos: int) -> int {
    run_end(s, pos + 1, |c: char| is_identifier_part(c))
}

/// The token of one character at `pos`.
pub open spec fn single(kind: TokenType, pos: int) -> Lexeme {
    Lexeme::Token { kind, from: pos, to: pos + 1, next: pos + 1 }
}

/// The longest operator at `pos`: `long`, of two characters, where `=`
/// follows, else `short`, of one.
pub open spec fn operator(s: Seq<char>, pos: int, long: TokenType, short: TokenType) -> Lexeme {
    if pos + 1 < s.len() && s[pos + 1] == '=' {
        Lexeme::Token { kind: long, from: pos, to: pos + 2, next: pos + 2 }
    } else {
        single(short, pos)
    }
}

/// The kind of the punctuation mark `c` that always stands alone, if it is one.
pub open spec fn punctuation(c: char) -> Option<TokenType> {
    if c == '(' {
        Some(TokenType::LeftParen)
    } else if c == ')' {
        Some(TokenType::RightParen)
    } else if c == '{' {
        Some(TokenType::LeftBrace)
    } else if c == '}' {
        Some(TokenType::RightBrace)
    } else if c == ';' {
        Some(TokenType::Semicolon)
    } else if c == ',' {
        Some(TokenType::Comma)
    } else if c == '.' {
        Some(TokenType::Dot)
    } else if c == '+' {
        Some(TokenType::Plus)
    } else if c == '-' {
        Some(TokenType::Minus)
    } else if c == '*' {
        Some(TokenType::Star)
    } else {
        None
    }
}

/// For a character that begins an operator of one or two characters: the
/// kind of the operator that it makes with `=` after it, and the kind that it
/// is alone.
pub open spec fn operator_kinds(c: char) -> Option<(TokenType, TokenType)> {
    if c == '!' {
        Some((TokenType::BangEqual, TokenType::Bang))
    } else if c == '=' {
        Some((TokenType::EqualEqual, TokenType::Equal))
    } else if c == '>' {
        Some((TokenType::GreaterEqual, TokenType::Greater))
    } else if c == '<' {
        Some((TokenType::LessEqual, TokenType::Less))
    } else {
        None
    }
}

/// The message of the fault that a string without its closing quote gives.
pub open spec fn unterminated_string() -> Seq<char> {
    "unterminated string"@
}

/// The message of the fault that a character outside the language gives.
pub open spec fn unexpected_character(c: char) -> Seq<char> {
    "unexpected character: "@.push(c)
}

/// The lexeme that starts at `pos`, for `0 <= pos < s.len()`.
pub open spec fn lexeme_at(s: Seq<char>, pos: int) -> Lexeme {
    let c = s[pos];
    if punctuation(c) is Some {
        single(punctuation(c)->Some_0, pos)
    } else if c == '/' {
        if pos + 1 < s.len() && s[pos + 1] == '/' {
            let end = line_end(s, pos);
            if end < s.len() {
                Lexeme::Skip { next: end + 1, lines: 1 }
            } else {
                Lexeme::Skip { next: end, lines: 0 }
            }
        } else {
            single(TokenType::Slash, pos)
        }
    } else if operator_kinds(c) is Some {
        operator(s, pos, operator_kinds(c)->Some_0.0, operator_kinds(c)->Some_0.1)
    } else if c == '"' {
        let stop = string_stop(s, pos + 1);
        if stop < s.len() && s[stop] == '"' {
            Lexeme::Token { kind: TokenType::String, from: pos + 1, to: stop, next: stop + 1 }
        } else {
            Lexeme::Fault { message: unterminated_string() }
        }
    } else if c == ' ' || c == '\r' || c == '\t' {
        Lexeme::Skip { next: pos + 1, lines: 0 }
    } else if c == '\n' {
        Lexeme::Skip { next: pos + 1, lines: 1 }
    } else if is_digit(c) {
        let end = number_end(s, pos);
        Lexeme::Token { kind: TokenType::Number, from: pos, to: end, next: end }
    } else if is_identifier_start(c) {
        let end = identifier_end(s, pos);
        Lexeme::Token {
            kind: TokenType::classify(s.subrange(pos, end)),
            from: pos,
            to: end,
            next: end,
        }
    } else {
        Lexeme::Fault { message: unexpected_character(c) }
    }
}

/// `tokens` followed by what `rest` holds; the fault of `rest` where it is one.
pub open spec fn after(tokens: Seq<TokenView>, rest: Result<Seq<TokenView>, Fault>) -> Result<
    Seq<TokenView>,
    Fault,
> {
    match rest {
        Ok(more) => Ok(tokens + more),
        Err(fault) => Err(fault),
    }
}

/// The tokens of `s` from `pos` on, where `pos` stands on line `line`; or the
/// first lexical fault from there on.
pub open spec fn scan_from(s: Seq<char>, pos: int, line: int) -> Result<Seq<TokenView>, Fault>
    decreases s.len() - pos,
    via scan_from_terminates
{
    if pos < 0 || pos >= s.len() {
        Ok(Seq::empty())
    } else {
        match lexeme_at(s, pos) {
            Lexeme::Token { kind, from, to, next } => after(
                seq![
                    TokenView { token_type: kind, lexeme: s.subrange(from, to), line_number: line },
                ],
                scan_from(s, next, line),
            ),
            Lexeme::Skip { next, lines } => scan_from(s, next, line + lines),
            Lexeme::Fault { message } => Err(Fault { line, message }),
        }
    }
}

/// The tokens of the source text `s`, in source order, with lines counted
/// from 1; or the first lexical fault.
pub open spec fn scan_text(s: Seq<char>) -> Result<Seq<TokenView>, Fault> {
    scan_from(s, 0, 1)
}

/// The number of newline characters in `s`.
pub open spec fn newline_count(s: Seq<char>) -> nat
    decreases s.len(),
{
    if s.len() == 0 {
        0
    } else {
        newline_count(s.drop_last()) + if s.last() == '\n' {
            1nat
        } else {
            0nat
        }
    }
}

/// A run ends at or after its start and within the text.
pub proof fn lemma_run_end_bounds(s: Seq<char>, pos: int, accepts: spec_fn(char) -> bool)
    requires
        0 <= pos <= s.len(),
    ensures
        pos <= run_end(s, pos, accepts) <= s.len(),
    decreases s.len() - pos,
{
    if pos < s.len() && accepts(s[pos]) {
        lemma_run_end_bounds(s, pos + 1, accepts);
    }
}

/// Every character of a run satisfies the test, and the character at its end,
/// if there is one, does not.
pub proof fn lemma_run_end_content(s: Seq<char>, pos: int, accepts: spec_fn(char) -> bool)
    requires
        0 <= pos <= s.len(),
    ensures
        forall|i: int| pos <= i < run_end(s, pos, accepts) ==> accepts(#[trigger] s[i]),
        run_end(s, pos, accepts) < s.len() ==> !accepts(s[run_end(s, pos, accepts)]),
    decreases s.len() - pos,
{
    if pos < s.len() && accepts(s[pos]) {
        lemma_run_end_content(s, pos + 1, accepts);
    }
}

/// A number literal ends after its first digit and within the text.
pub proof fn lemma_number_end_bounds(s: Seq<char>, pos: int)
    requires
        0 <= pos < s.len(),
        is_digit(s[pos]),
    ensures
        pos < number_end(s, pos) <= s.len(),
{
    let digits = |c: char| is_digit(c);
    lemma_run_end_bounds(s, pos + 1, digits);
    let whole = digits_end(s, pos);
    assert(whole == run_end(s, pos + 1, digits));
    if whole + 1 < s.len() {
        lemma_run_end_bounds(s, whole + 1, digits);
    }
}

/// The lexeme at a position lies within the text, and scanning goes on
/// strictly after the position.
pub proof fn lemma_lexeme_bounds(s: Seq<char>, pos: int)
    requires
        0 <= pos < s.len(),
    ensures
        match lexeme_at(s, pos) {
            Lexeme::Token { kind, from, to, next } => pos <= from <= to <= next <= s.len() && pos
                < next,
            Lexeme::Skip { next, lines } => pos < next <= s.len() && 0 <= lines <= 1,
            Lexeme::Fault { message } => true,
        },
{
    let c = s[pos];
    lemma_run_end_bounds(s, pos, |c: char| c != '\n');
    lemma_run_end_bounds(s, pos + 1, |c: char| c != '\n');
    lemma_run_end_bounds(s, pos + 1, |c: char| c != '"' && c != '\n');
    lemma_run_end_bounds(s, pos + 1, |c: char| is_identifier_part(c));
    if is_digit(c) {
        lemma_number_end_bounds(s, pos);
    }
}

#[via_fn]
proof fn scan_from_terminates(s: Seq<char>, pos: int, line: int) {
    if 0 <= pos < s.len() {
        lemma_lexeme_bounds(s, pos);
    }
}

} // verus!
