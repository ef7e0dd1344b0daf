//! What holds of every scan: theorems on the lexical grammar, and the
//! lemmas that they rest on.

use crate::fault::Fault;
use crate::lexical::{
    after, digits_end, identifier_end, lemma_lexeme_bounds, lemma_run_end_bounds,
    lemma_run_end_content, lexeme_at, newline_count, number_end, operator_kinds, punctuation,
    run_end, scan_from, scan_text, string_stop, unterminated_string, Lexeme,
};
use crate::text::{is_digit, is_identifier_part, is_identifier_start};
use crate::token::{TokenType, TokenView};
use vstd::prelude::*;

verus! {

// Definitions.

/// The scan of a source text that is one lexeme on its first line.
pub open spec fn one_token(kind: TokenType, lexeme: Seq<char>) -> Result<Seq<TokenView>, Fault> {
    Ok(seq![TokenView { token_type: kind, lexeme, line_number: 1 }])
}

/// The kind of the token that the character `c` is when it stands alone.
pub open spec fn single_kind(c: char) -> Option<TokenType> {
    if punctuation(c) is Some {
        punctuation(c)
    } else if c == '/' {
        Some(TokenType::Slash)
    } else if operator_kinds(c) is Some {
        Some(operator_kinds(c)->Some_0.1)
    } else {
        None
    }
}

/// Every character of `s` is a decimal digit.
pub open spec fn all_digits(s: Seq<char>) -> bool {
    forall|i: int| 0 <= i < s.len() ==> is_digit(#[trigger] s[i])
}

/// `s` has the shape of an identifier: a letter or an underscore, then
/// letters, digits and underscores.
pub open spec fn is_word(s: Seq<char>) -> bool {
    &&& s.len() > 0
    &&& is_identifier_start(s[0])
    &&& forall|i: int| 1 <= i < s.len() ==> is_identifier_part(#[trigger] s[i])
}

/// The text of a punctuation mark or an operator of kind `kind`.
pub open spec fn symbol(kind: TokenType) -> Option<Seq<char>> {
    match kind {
        TokenType::LeftParen => Some(seq!['(']),
        TokenType::RightParen => Some(seq![')']),
        TokenType::LeftBrace => Some(seq!['{']),
        TokenType::RightBrace => Some(seq!['}']),
        TokenType::Semicolon => Some(seq![';']),
        TokenType::Comma => Some(seq![',']),
        TokenType::Dot => Some(seq!['.']),
        TokenType::Plus => Some(seq!['+']),
        TokenType::Minus => Some(seq!['-']),
        TokenType::Star => Some(seq!['*']),
        TokenType::Slash => Some(seq!['/']),
        TokenType::Bang => Some(seq!['!']),
        TokenType::BangEqual => Some(seq!['!', '=']),
        TokenType::Equal => Some(seq!['=']),
        TokenType::EqualEqual => Some(seq!['=', '=']),
        TokenType::Greater => Some(seq!['>']),
        TokenType::GreaterEqual => Some(seq!['>', '=']),
        TokenType::Less => Some(seq!['<']),
        TokenType::LessEqual => Some(seq!['<', '=']),
        _ => None,
    }
}

/// `s` has the shape of a number literal of the language: a run of digits,
/// and after it, or not, a dot and a further run of digits, to the end.
pub open spec fn is_number_lexeme(s: Seq<char>) -> bool {
    let whole = digits_end(s, 0);
    whole > 0 && (whole == s.len() || (s[whole] == '.' && whole + 1 < s.len() && digits_end(
        s,
        whole + 1,
    ) == s.len()))
}

/// Whether a token is what a scan can yield: its line is 1 or more, and its
/// lexeme has the shape of its kind. A punctuation mark or an operator has
/// its symbol as lexeme; a string holds no quote and no newline; a number
/// has the shape of a number literal; and a reserved word or an identifier
/// has the shape of an identifier, and is of the kind that its lexeme spells.
pub open spec fn is_sound(token: TokenView) -> bool {
    &&& token.line_number >= 1
    &&& match token.token_type {
        TokenType::String => forall|i: int|
            0 <= i < token.lexeme.len() ==> token.lexeme[i] != '"' && token.lexeme[i] != '\n',
        TokenType::Number => is_number_lexeme(token.lexeme),
        kind => if symbol(kind) is Some {
            token.lexeme == symbol(kind)->Some_0
        } else {
            is_word(token.lexeme) && kind == TokenType::classify(token.lexeme)
        },
    }
}

/// The positions at which the tokens of `s` start, from `pos` on, in source
/// order. A string starts at its opening quote.
pub open spec fn token_starts(s: Seq<char>, pos: int) -> Seq<int>
    decreases s.len() - pos,
    via token_starts_terminates
{
    if pos < 0 || pos >= s.len() {
        Seq::empty()
    } else {
        match lexeme_at(s, pos) {
            Lexeme::Token { kind, from, to, next } => seq![pos] + token_starts(s, next),
            Lexeme::Skip { next, lines } => token_starts(s, next),
            Lexeme::Fault { message } => Seq::empty(),
        }
    }
}

#[via_fn]
proof fn token_starts_terminates(s: Seq<char>, pos: int) {
    if 0 <= pos < s.len() {
        lemma_lexeme_bounds(s, pos);
    }
}

// Theorems.

/// A punctuation mark or an operator of one character, alone in a text,
/// scans to one token of its kind, with the character as its lexeme, on
/// line 1.
pub proof fn theorem_single_character(c: char)
    requires
        single_kind(c) is Some,
    ensures
        scan_text(seq![c]) == one_token(single_kind(c)->Some_0, seq![c]),
{
    let s = seq![c];
    lemma_one_lexeme(s, single_kind(c)->Some_0, 0, 1);
    assert(s.subrange(0, 1) =~= s);
}

/// An operator of two characters, alone in a text, scans to one token of
/// its kind, with both characters as its lexeme, on line 1.
pub proof fn theorem_double_operator(c: char)
    requires
        operator_kinds(c) is Some,
    ensures
        scan_text(seq![c, '=']) == one_token(operator_kinds(c)->Some_0.0, seq![c, '=']),
{
    let s = seq![c, '='];
    lemma_one_lexeme(s, operator_kinds(c)->Some_0.0, 0, 2);
    assert(s.subrange(0, 2) =~= s);
}

/// The longest operator wins: where `=` follows a character that begins an
/// operator, the two make one token; where anything else follows, or
/// nothing, the character is a token alone. The scan goes on behind it.
pub proof fn theorem_longest_operator(s: Seq<char>)
    requires
        s.len() > 0,
        operator_kinds(s[0]) is Some,
    ensures
        s.len() > 1 && s[1] == '=' ==> scan_text(s) == after(
            seq![
                TokenView {
                    token_type: operator_kinds(s[0])->Some_0.0,
                    lexeme: s.take(2),
                    line_number: 1,
                },
            ],
            scan_from(s, 2, 1),
        ),
        !(s.len() > 1 && s[1] == '=') ==> scan_text(s) == after(
            seq![
                TokenView {
                    token_type: operator_kinds(s[0])->Some_0.1,
                    lexeme: s.take(1),
                    line_number: 1,
                },
            ],
            scan_from(s, 1, 1),
        ),
{
    assert(s.take(2) =~= s.subrange(0, 2));
    assert(s.take(1) =~= s.subrange(0, 1));
}

/// A text in the shape of an identifier scans to one token on line 1 whose
/// lexeme is the text and whose kind is the reserved word that the text
/// spells, or `Identifier` where it spells none.
pub proof fn theorem_word(s: Seq<char>)
    requires
        is_word(s),
    ensures
        scan_text(s) == one_token(TokenType::classify(s), s),
{
    lemma_run_end_is(s, 1, s.len() as int, |c: char| is_identifier_part(c));
    assert(identifier_end(s, 0) == s.len());
    assert(s.subrange(0, s.len() as int) =~= s);
    lemma_one_lexeme(s, TokenType::classify(s), 0, s.len() as int);
}

/// Every reserved word has the shape of an identifier, so that it scans to
/// one token of its own kind.
pub proof fn theorem_keyword(s: Seq<char>)
    requires
        TokenType::classify(s).is_keyword(),
    ensures
        is_word(s),
        scan_text(s) == one_token(TokenType::classify(s), s),
{
    reveal_strlit("nil");
    reveal_strlit("true");
    reveal_strlit("false");
    reveal_strlit("and");
    reveal_strlit("or");
    reveal_strlit("if");
    reveal_strlit("else");
    reveal_strlit("for");
    reveal_strlit("while");
    reveal_strlit("var");
    reveal_strlit("fun");
    reveal_strlit("return");
    reveal_strlit("class");
    reveal_strlit("this");
    reveal_strlit("super");
    reveal_strlit("print");
    assert(is_word(s));
    theorem_word(s);
}

/// A run of digits, alone in a text, scans to one number token on line 1
/// whose lexeme is the text.
pub proof fn theorem_integer(whole: Seq<char>)
    requires
        whole.len() > 0,
        all_digits(whole),
    ensures
        scan_text(whole) == one_token(TokenType::Number, whole),
{
    let s = whole;
    lemma_run_end_is(s, 0, s.len() as int, |c: char| is_digit(c));
    assert(number_end(s, 0) == s.len());
    assert(s.subrange(0, s.len() as int) =~= s);
    lemma_one_lexeme(s, TokenType::Number, 0, s.len() as int);
}

/// Digits, a dot and further digits, alone in a text, scan to one number
/// token on line 1 whose lexeme is the text.
pub proof fn theorem_decimal(whole: Seq<char>, fraction: Seq<char>)
    requires
        whole.len() > 0,
        fraction.len() > 0,
        all_digits(whole),
        all_digits(fraction),
    ensures
        scan_text(whole + seq!['.'] + fraction) == one_token(
            TokenType::Number,
            whole + seq!['.'] + fraction,
        ),
{
    let s = whole + seq!['.'] + fraction;
    let dot = whole.len() as int;
    assert(forall|i: int| 0 <= i < dot ==> s[i] == whole[i]);
    assert(s[dot] == '.');
    assert(forall|i: int| dot < i < s.len() ==> s[i] == fraction[i - dot - 1]);
    lemma_run_end_is(s, 0, dot, |c: char| is_digit(c));
    lemma_run_end_is(s, dot + 1, s.len() as int, |c: char| is_digit(c));
    assert(number_end(s, 0) == s.len());
    assert(s.subrange(0, s.len() as int) =~= s);
    lemma_one_lexeme(s, TokenType::Number, 0, s.len() as int);
}

/// A text between two quotes that holds neither a quote nor a newline scans
/// to one string token on line 1 whose lexeme is the text without the quotes.
pub proof fn theorem_string(body: Seq<char>)
    requires
        forall|i: int| 0 <= i < body.len() ==> body[i] != '"' && body[i] != '\n',
    ensures
        scan_text(seq!['"'] + body + seq!['"']) == one_token(TokenType::String, body),
{
    let s = seq!['"'] + body + seq!['"'];
    let close = body.len() as int + 1;
    assert(forall|i: int| 1 <= i < close ==> s[i] == body[i - 1]);
    lemma_run_end_is(s, 1, close, |c: char| c != '"' && c != '\n');
    assert(string_stop(s, 1) == close);
    assert(s.subrange(1, close) =~= body);
    lemma_one_lexeme(s, TokenType::String, 1, close);
}

/// A string without its closing quote is a fault on the line of the opening
/// quote: a text that begins with a quote and holds no second one fails on
/// line 1, whatever follows the quote.
pub proof fn theorem_unterminated_string(rest: Seq<char>)
    requires
        forall|i: int| 0 <= i < rest.len() ==> rest[i] != '"',
    ensures
        scan_text(seq!['"'] + rest) == Err::<Seq<TokenView>, Fault>(
            Fault { line: 1, message: unterminated_string() },
        ),
{
    let s = seq!['"'] + rest;
    let accepts = |c: char| c != '"' && c != '\n';
    lemma_run_end_bounds(s, 1, accepts);
    lemma_run_end_content(s, 1, accepts);
    let stop = string_stop(s, 1);
    if stop < s.len() {
        assert(s[stop] == rest[stop - 1]);
    }
}

/// Lines are counted from 1 by the newlines: every token that a scan yields
/// stands on the line that is one more than the number of newlines before
/// the place where the token starts.
pub proof fn theorem_line_tracking(s: Seq<char>)
    requires
        scan_text(s) is Ok,
    ensures
        token_starts(s, 0).len() == scan_text(s)->Ok_0.len(),
        forall|i: int|
            0 <= i < token_starts(s, 0).len() ==> 0 <= (#[trigger] token_starts(s, 0)[i]) < s.len()
                && scan_text(s)->Ok_0[i].line_number == 1 + newline_count(
                s.take(token_starts(s, 0)[i]),
            ),
{
    lemma_lines_from(s, 0, 1);
    assert forall|i: int| 0 <= i < token_starts(s, 0).len() implies s.subrange(
        0,
        #[trigger] token_starts(s, 0)[i],
    ) == s.take(token_starts(s, 0)[i]) by {
        assert(s.subrange(0, token_starts(s, 0)[i]) =~= s.take(token_starts(s, 0)[i]));
    }
}

/// The tokens that a scan yields are in source order by line: no token is
/// on an earlier line than a token before it.
pub proof fn theorem_lines_ascend(s: Seq<char>)
    requires
        scan_text(s) is Ok,
    ensures
        forall|i: int, j: int|
            0 <= i <= j < scan_text(s)->Ok_0.len() ==> scan_text(s)->Ok_0[i].line_number
                <= scan_text(s)->Ok_0[j].line_number,
{
    lemma_scan_is_sound(s, 0, 1);
}

/// Every token that a scan yields is sound: it is on line 1 or further
/// down, and its lexeme has the shape of its kind. In particular, a lexeme
/// that spells a reserved word is never an `Identifier`.
pub proof fn theorem_tokens_are_sound(s: Seq<char>)
    requires
        scan_text(s) is Ok,
    ensures
        forall|i: int|
            0 <= i < scan_text(s)->Ok_0.len() ==> is_sound(#[trigger] scan_text(s)->Ok_0[i]),
{
    lemma_scan_is_sound(s, 0, 1);
}

/// A text in the shape of a number literal is a well-formed floating-point
/// literal: the parser takes every number that the scanner yields.
pub proof fn theorem_number_lexeme_is_float_text(s: Seq<char>)
    requires
        is_number_lexeme(s),
    ensures
        crate::number::is_float_text(s),
{
    let digits = |c: char| is_digit(c);
    lemma_run_end_bounds(s, 0, digits);
    lemma_run_end_content(s, 0, digits);
    assert(is_digit(s[0]));
    assert(crate::number::unsigned_start(s) == 0);
    let whole = digits_end(s, 0);
    if whole < s.len() {
        lemma_run_end_bounds(s, whole + 1, digits);
    }
}

// Runs of characters.

/// A run whose characters up to `to` all pass the test, and which the
/// character at `to` does not, ends at `to`.
pub proof fn lemma_run_end_is(s: Seq<char>, from: int, to: int, accepts: spec_fn(char) -> bool)
    requires
        0 <= from <= to <= s.len(),
        forall|i: int| from <= i < to ==> accepts(#[trigger] s[i]),
        to < s.len() ==> !accepts(s[to]),
    ensures
        run_end(s, from, accepts) == to,
    decreases to - from,
{
    if from < to {
        lemma_run_end_is(s, from + 1, to, accepts);
    }
}

/// Within a part of a text, a run ends where it ends in the whole text, or
/// where the part ends if that comes first.
pub proof fn lemma_run_end_in_part(
    s: Seq<char>,
    from: int,
    to: int,
    pos: int,
    accepts: spec_fn(char) -> bool,
)
    requires
        0 <= from <= pos <= to <= s.len(),
    ensures
        run_end(s.subrange(from, to), pos - from, accepts) == if run_end(s, pos, accepts) < to {
            run_end(s, pos, accepts) - from
        } else {
            to - from
        },
    decreases to - pos,
{
    let part = s.subrange(from, to);
    lemma_run_end_bounds(s, pos, accepts);
    if pos < to {
        assert(part[pos - from] == s[pos]);
        if accepts(s[pos]) {
            lemma_run_end_in_part(s, from, to, pos + 1, accepts);
        }
    }
}

/// A text whose first lexeme is a token that ends where the text ends scans
/// to that one token.
proof fn lemma_one_lexeme(s: Seq<char>, kind: TokenType, from: int, to: int)
    requires
        s.len() > 0,
        lexeme_at(s, 0) == (Lexeme::Token { kind, from, to, next: s.len() as int }),
    ensures
        scan_text(s) == one_token(kind, s.subrange(from, to)),
{
    let token = TokenView { token_type: kind, lexeme: s.subrange(from, to), line_number: 1 };
    assert(scan_from(s, s.len() as int, 1) == Ok::<Seq<TokenView>, Fault>(Seq::empty()));
    assert(seq![token] + Seq::<TokenView>::empty() =~= seq![token]);
}

/// The lexeme of a number token has the shape of a number literal.
pub proof fn lemma_number_lexeme(s: Seq<char>, pos: int)
    requires
        0 <= pos < s.len(),
        is_digit(s[pos]),
    ensures
        is_number_lexeme(s.subrange(pos, number_end(s, pos))),
{
    let digits = |c: char| is_digit(c);
    let end = number_end(s, pos);
    let whole = digits_end(s, pos);
    crate::lexical::lemma_number_end_bounds(s, pos);
    lemma_run_end_bounds(s, pos, digits);
    lemma_run_end_bounds(s, pos + 1, digits);
    let part = s.subrange(pos, end);
    lemma_run_end_in_part(s, pos, end, pos, digits);
    if whole + 1 < s.len() && s[whole] == '.' && is_digit(s[whole + 1]) {
        lemma_run_end_bounds(s, whole + 2, digits);
        lemma_run_end_in_part(s, pos, end, whole + 1, digits);
        assert(part[whole - pos] == s[whole]);
        assert(digits_end(part, 0) == whole - pos);
        assert(digits_end(part, whole - pos + 1) == part.len());
    } else {
        assert(digits_end(part, 0) == part.len());
    }
}

// The tokens of a scan.

/// The kind that a text in the shape of an identifier spells is a reserved
/// word or `Identifier`: a kind without a symbol, and neither `String` nor
/// `Number`.
proof fn lemma_word_kind(s: Seq<char>)
    ensures
        symbol(TokenType::classify(s)) is None,
        TokenType::classify(s) != TokenType::String,
        TokenType::classify(s) != TokenType::Number,
{
}

/// The token at a position, if there is one, is sound.
proof fn lemma_lexeme_is_sound(s: Seq<char>, pos: int, line: int)
    requires
        0 <= pos < s.len(),
        line >= 1,
    ensures
        match lexeme_at(s, pos) {
            Lexeme::Token { kind, from, to, next } => is_sound(
                TokenView { token_type: kind, lexeme: s.subrange(from, to), line_number: line },
            ),
            _ => true,
        },
{
    let c = s[pos];
    lemma_lexeme_bounds(s, pos);
    match lexeme_at(s, pos) {
        Lexeme::Token { kind, from, to, next } => {
            let lexeme = s.subrange(from, to);
            if kind == TokenType::String && c == '"' {
                lemma_run_end_content(s, pos + 1, |c: char| c != '"' && c != '\n');
                assert forall|i: int| 0 <= i < lexeme.len() implies lexeme[i] != '"' && lexeme[i]
                    != '\n' by {
                    assert(lexeme[i] == s[from + i]);
                }
            } else if kind == TokenType::Number && is_digit(c) {
                lemma_number_lexeme(s, pos);
            } else if symbol(kind) is Some {
                assert(lexeme =~= symbol(kind)->Some_0);
            } else {
                lemma_run_end_content(s, pos + 1, |c: char| is_identifier_part(c));
                assert(lexeme[0] == s[pos]);
                assert forall|i: int| 1 <= i < lexeme.len() implies is_identifier_part(
                    #[trigger] lexeme[i],
                ) by {
                    assert(lexeme[i] == s[pos + i]);
                }
                lemma_word_kind(lexeme);
            }
        },
        _ => {},
    }
}

/// Every token from a position on is sound, and is on the line of the
/// position or further down.
proof fn lemma_scan_is_sound(s: Seq<char>, pos: int, line: int)
    requires
        0 <= pos <= s.len(),
        line >= 1,
        scan_from(s, pos, line) is Ok,
    ensures
        forall|i: int|
            0 <= i < scan_from(s, pos, line)->Ok_0.len() ==> is_sound(
                #[trigger] scan_from(s, pos, line)->Ok_0[i],
            ) && scan_from(s, pos, line)->Ok_0[i].line_number >= line,
        forall|i: int, j: int|
            0 <= i <= j < scan_from(s, pos, line)->Ok_0.len() ==> scan_from(
                s,
                pos,
                line,
            )->Ok_0[i].line_number <= scan_from(s, pos, line)->Ok_0[j].line_number,
    decreases s.len() - pos,
{
    if pos < s.len() {
        lemma_lexeme_bounds(s, pos);
        lemma_lexeme_is_sound(s, pos, line);
        match lexeme_at(s, pos) {
            Lexeme::Token { kind, from, to, next } => {
                lemma_scan_is_sound(s, next, line);
                let first = TokenView {
                    token_type: kind,
                    lexeme: s.subrange(from, to),
                    line_number: line,
                };
                let rest = scan_from(s, next, line)->Ok_0;
                let all = scan_from(s, pos, line)->Ok_0;
                assert(all == seq![first] + rest);
                assert(all[0] == first);
                assert(forall|i: int| 1 <= i < all.len() ==> all[i] == rest[i - 1]);
            },
            Lexeme::Skip { next, lines } => {
                lemma_scan_is_sound(s, next, line + lines);
            },
            Lexeme::Fault { message } => {},
        }
    }
}

// Newlines and lines.

/// Two texts one after the other hold the newlines of both.
pub proof fn lemma_newlines_add(first: Seq<char>, second: Seq<char>)
    ensures
        newline_count(first + second) == newline_count(first) + newline_count(second),
    decreases second.len(),
{
    if second.len() == 0 {
        assert(first + second =~= first);
    } else {
        assert((first + second).drop_last() =~= first + second.drop_last());
        lemma_newlines_add(first, second.drop_last());
    }
}

/// A part of a text without a newline character holds no newline.
pub proof fn lemma_no_newlines(s: Seq<char>, from: int, to: int)
    requires
        0 <= from <= to <= s.len(),
        forall|i: int| from <= i < to ==> s[i] != '\n',
    ensures
        newline_count(s.subrange(from, to)) == 0,
    decreases to - from,
{
    if from < to {
        assert(s.subrange(from, to).drop_last() =~= s.subrange(from, to - 1));
        lemma_no_newlines(s, from, to - 1);
    }
}

/// The newlines of a part of a text are those of its two halves.
proof fn lemma_newlines_split(s: Seq<char>, from: int, mid: int, to: int)
    requires
        0 <= from <= mid <= to <= s.len(),
    ensures
        newline_count(s.subrange(from, to)) == newline_count(s.subrange(from, mid))
            + newline_count(s.subrange(mid, to)),
{
    assert(s.subrange(from, to) =~= s.subrange(from, mid) + s.subrange(mid, to));
    lemma_newlines_add(s.subrange(from, mid), s.subrange(mid, to));
}

/// One character holds one newline where it is a newline, and none where
/// it is not.
proof fn lemma_newlines_of_one(s: Seq<char>, pos: int)
    requires
        0 <= pos < s.len(),
    ensures
        newline_count(s.subrange(pos, pos + 1)) == if s[pos] == '\n' {
            1nat
        } else {
            0nat
        },
{
    assert(s.subrange(pos, pos + 1).drop_last() =~= Seq::<char>::empty());
    assert(newline_count(Seq::<char>::empty()) == 0);
}

/// A token holds no newline, and text that is skipped holds as many newlines
/// as it moves the scan down by.
proof fn lemma_lexeme_lines(s: Seq<char>, pos: int)
    requires
        0 <= pos < s.len(),
    ensures
        match lexeme_at(s, pos) {
            Lexeme::Token { kind, from, to, next } => newline_count(s.subrange(pos, next)) == 0,
            Lexeme::Skip { next, lines } => newline_count(s.subrange(pos, next)) == lines,
            Lexeme::Fault { message } => true,
        },
{
    let c = s[pos];
    lemma_lexeme_bounds(s, pos);
    match lexeme_at(s, pos) {
        Lexeme::Token { kind, from, to, next } => {
            if c == '"' {
                lemma_run_end_content(s, pos + 1, |c: char| c != '"' && c != '\n');
            } else if is_digit(c) {
                let digits = |c: char| is_digit(c);
                let whole = digits_end(s, pos);
                lemma_run_end_bounds(s, pos, digits);
                lemma_run_end_content(s, pos, digits);
                if whole + 1 < s.len() {
                    lemma_run_end_content(s, whole + 1, digits);
                }
            } else if is_identifier_start(c) {
                lemma_run_end_content(s, pos + 1, |c: char| is_identifier_part(c));
            }
            lemma_no_newlines(s, pos, next);
        },
        Lexeme::Skip { next, lines } => {
            if c == '/' {
                let end = crate::lexical::line_end(s, pos);
                lemma_run_end_bounds(s, pos, |c: char| c != '\n');
                lemma_run_end_content(s, pos, |c: char| c != '\n');
                lemma_no_newlines(s, pos, end);
                if end < s.len() {
                    lemma_newlines_split(s, pos, end, end + 1);
                    lemma_newlines_of_one(s, end);
                }
            } else {
                lemma_newlines_of_one(s, pos);
            }
        },
        Lexeme::Fault { message } => {},
    }
}

/// From a position on, every token stands on the line of the position, as
/// many lines further down as newlines lie between the position and the
/// start of the token.
proof fn lemma_lines_from(s: Seq<char>, pos: int, line: int)
    requires
        0 <= pos <= s.len(),
        scan_from(s, pos, line) is Ok,
    ensures
        token_starts(s, pos).len() == scan_from(s, pos, line)->Ok_0.len(),
        forall|i: int|
            0 <= i < token_starts(s, pos).len() ==> pos <= (#[trigger] token_starts(s, pos)[i])
                < s.len() && scan_from(s, pos, line)->Ok_0[i].line_number == line + newline_count(
                s.subrange(pos, token_starts(s, pos)[i]),
            ),
    decreases s.len() - pos,
{
    if pos < s.len() {
        lemma_lexeme_bounds(s, pos);
        lemma_lexeme_lines(s, pos);
        let starts = token_starts(s, pos);
        let tokens = scan_from(s, pos, line)->Ok_0;
        match lexeme_at(s, pos) {
            Lexeme::Token { kind, from, to, next } => {
                lemma_lines_from(s, next, line);
                let rest = scan_from(s, next, line)->Ok_0;
                let later = token_starts(s, next);
                assert(tokens == seq![
                    TokenView { token_type: kind, lexeme: s.subrange(from, to), line_number: line },
                ] + rest);
                assert(starts == seq![pos] + later);
                assert(s.subrange(pos, pos) =~= Seq::<char>::empty());
                assert forall|i: int| 0 <= i < starts.len() implies pos <= (#[trigger] starts[i])
                    < s.len() && tokens[i].line_number == line + newline_count(
                    s.subrange(pos, starts[i]),
                ) by {
                    if i > 0 {
                        assert(starts[i] == later[i - 1]);
                        assert(tokens[i] == rest[i - 1]);
                        lemma_newlines_split(s, pos, next, later[i - 1]);
                    }
                }
            },
            Lexeme::Skip { next, lines } => {
                lemma_lines_from(s, next, line + lines);
                assert forall|i: int| 0 <= i < starts.len() implies pos <= (#[trigger] starts[i])
                    < s.len() && tokens[i].line_number == line + newline_count(
                    s.subrange(pos, starts[i]),
                ) by {
                    lemma_newlines_split(s, pos, next, starts[i]);
                }
            },
            Lexeme::Fault { message } => {},
        }
    }
}

} // verus!
