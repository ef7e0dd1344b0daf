//! The scanner: from a source text to its tokens, or to its first lexical
//! fault.

use crate::fault::Fault;
use crate::lexical::{
    after, identifier_end, lemma_lexeme_bounds, lemma_number_end_bounds, lexeme_at, line_end,
    newline_count, number_end, punctuation, run_end, scan_from, scan_text, string_stop, Lexeme,
};
use crate::number::find_digits_end;
use crate::text::{
    characters, digit, identifier_part, identifier_start, is_digit, is_identifier_part, slice_text,
};
use crate::token::{copy_tokens, token_views, Token, TokenType, TokenView};
use vstd::prelude::*;
use vstd::string::StringExecFns;

verus! {

/// A lexical fault: the line it stands on and what is wrong there.
#[derive(Debug)]
pub struct Error {
    pub line_number: i32,
    pub message: String,
}

impl View for Error {
    type V = Fault;

    open spec fn view(&self) -> Fault {
        Fault { line: self.line_number as int, message: self.message@ }
    }
}

impl Error {
    pub fn new(line_number: i32, message: &str) -> (error: Error)
        ensures
            error@ == (Fault { line: line_number as int, message: message@ }),
    {
        Error { line_number, message: String::from_str(message) }
    }
}

/// The state of a scanner as contracts speak of it.
pub struct ScannerView {
    /// The index of the character that is looked at.
    pub cursor: nat,
    /// The index at which the lexeme in progress starts.
    pub lexeme_start: nat,
    /// The line of the cursor, counted from 1.
    pub line_number: int,
    /// The tokens found so far.
    pub tokens: Seq<TokenView>,
}

/// A scanner: a cursor into a source text with the tokens found so far.
pub struct Scanner {
    cursor: usize,
    lexeme_start: usize,
    line_number: i32,
    pub tokens: Vec<Token>,
}

impl View for Scanner {
    type V = ScannerView;

    closed spec fn view(&self) -> ScannerView {
        ScannerView {
            cursor: self.cursor as nat,
            lexeme_start: self.lexeme_start as nat,
            line_number: self.line_number as int,
            tokens: token_views(self.tokens@),
        }
    }
}

/// The state of a scanner that has read nothing yet.
pub open spec fn fresh() -> ScannerView {
    ScannerView { cursor: 0, lexeme_start: 0, line_number: 1, tokens: Seq::empty() }
}

/// The line on which position `pos` of `s` stands, where every newline
/// before it ends a line: an upper bound of the line that a scanner counts.
pub open spec fn lines_until(s: Seq<char>, pos: int) -> int {
    1 + newline_count(s.take(pos)) as int
}

/// The state after the token `kind` with lexeme `lexeme` was added in state `before`.
pub open spec fn with_token(
    before: ScannerView,
    kind: TokenType,
    lexeme: Seq<char>,
) -> ScannerView {
    ScannerView {
        cursor: before.cursor + 1,
        lexeme_start: before.cursor + 1,
        line_number: before.line_number,
        tokens: before.tokens.push(
            TokenView { token_type: kind, lexeme, line_number: before.line_number },
        ),
    }
}

/// One character more holds one newline more where it is a newline, and as
/// many where it is not.
proof fn lemma_newlines_step(s: Seq<char>, pos: int)
    requires
        0 <= pos < s.len(),
    ensures
        newline_count(s.take(pos + 1)) == newline_count(s.take(pos)) + if s[pos] == '\n' {
            1nat
        } else {
            0nat
        },
{
    assert(s.take(pos + 1).drop_last() =~= s.take(pos));
}

/// A longer part of a text holds no fewer newlines than a shorter one.
proof fn lemma_newlines_monotonic(s: Seq<char>, from: int, to: int)
    requires
        0 <= from <= to <= s.len(),
    ensures
        newline_count(s.take(from)) <= newline_count(s.take(to)),
    decreases to - from,
{
    if from < to {
        lemma_newlines_step(s, to - 1);
        lemma_newlines_monotonic(s, from, to - 1);
    }
}

/// A text has no more newlines than characters, so that the lines of a text
/// of fewer than `i32::MAX` characters can be counted.
pub proof fn lemma_newlines_at_most_length(s: Seq<char>)
    ensures
        newline_count(s) <= s.len(),
        s.len() < i32::MAX ==> countable(s),
    decreases s.len(),
{
    if s.len() > 0 {
        lemma_newlines_at_most_length(s.drop_last());
    }
}

/// Whether the lines of a source text can be counted: whether it holds fewer
/// than `i32::MAX` newlines.
pub open spec fn countable(s: Seq<char>) -> bool {
    newline_count(s) < i32::MAX
}

/// Whether the lines of `source_code` can be counted, which is what `scan`
/// asks of its argument.
pub fn lines_fit(source_code: &str) -> (fit: bool)
    ensures
        fit == countable(source_code@),
{
    let chars = characters(source_code);
    let length = chars.len();
    let mut newlines: usize = 0;
    let mut i: usize = 0;
    while i < length
        invariant
            chars@ == source_code@,
            length == chars@.len(),
            i <= length,
            newlines == newline_count(chars@.take(i as int)),
            newlines <= i,
        decreases length - i,
    {
        proof {
            lemma_newlines_step(chars@, i as int);
        }
        if chars[i] == '\n' {
            newlines += 1;
        }
        i += 1;
    }
    assert(chars@.take(length as int) =~= chars@);
    newlines < 0x7fff_ffff
}

/// What a call of `scan` hands back, as contracts speak of it.
pub open spec fn scanned(result: Result<Vec<Token>, Error>) -> Result<Seq<TokenView>, Fault> {
    match result {
        Ok(tokens) => Ok(token_views(tokens@)),
        Err(error) => Err(error@),
    }
}

/// The tokens that a scan of `s` leaves in the scanner: those of `s`, or none
/// where `s` holds a lexical fault.
pub open spec fn kept_tokens(s: Seq<char>) -> Seq<TokenView> {
    match scan_text(s) {
        Ok(tokens) => tokens,
        Err(fault) => Seq::empty(),
    }
}

/// One step of scanning: what the lexeme at `pos` adds to the tokens `found`
/// before it.
proof fn lemma_scan_step(s: Seq<char>, found: Seq<TokenView>, pos: int, line: int)
    requires
        0 <= pos < s.len(),
    ensures
        match lexeme_at(s, pos) {
            Lexeme::Token { kind, from, to, next } => after(found, scan_from(s, pos, line))
                == after(
                found.push(
                    TokenView { token_type: kind, lexeme: s.subrange(from, to), line_number: line },
                ),
                scan_from(s, next, line),
            ),
            Lexeme::Skip { next, lines } => scan_from(s, pos, line) == scan_from(
                s,
                next,
                line + lines,
            ),
            Lexeme::Fault { message } => after(found, scan_from(s, pos, line)) == Err::<
                Seq<TokenView>,
                Fault,
            >(Fault { line, message }),
        },
{
    match lexeme_at(s, pos) {
        Lexeme::Token { kind, from, to, next } => {
            let token = TokenView {
                token_type: kind,
                lexeme: s.subrange(from, to),
                line_number: line,
            };
            match scan_from(s, next, line) {
                Ok(more) => {
                    assert(found + (seq![token] + more) =~= found.push(token) + more);
                },
                Err(fault) => {},
            }
        },
        Lexeme::Skip { next, lines } => {},
        Lexeme::Fault { message } => {},
    }
}

/// The kind of the punctuation mark `c` that always stands alone, if it is one.
fn punctuation_kind(c: char) -> (kind: Option<TokenType>)
    ensures
        kind == punctuation(c),
{
    if c == '(' {
        Some(TokenType::LeftParen)
    } else if c == ')' {
        Some(TokenType::RightParen)
    } else if c == '{' {
        Some(TokenType::LeftBrace)
    } else if c == '}' {
        Some(TokenType::RightBrace)
    } else if c == ';' {
        Some(TokenType::Semicolon)
    } else if c == ',' {
        Some(TokenType::Comma)
    } else if c == '.' {
        Some(TokenType::Dot)
    } else if c == '+' {
        Some(TokenType::Plus)
    } else if c == '-' {
        Some(TokenType::Minus)
    } else if c == '*' {
        Some(TokenType::Star)
    } else {
        None
    }
}

/// The index of the newline that ends the line of `from`, or the length of
/// `chars`.
fn find_line_end(chars: &Vec<char>, from: usize) -> (end: usize)
    requires
        from <= chars@.len(),
    ensures
        end == line_end(chars@, from as int),
        from <= end <= chars@.len(),
        end < chars@.len() ==> chars@[end as int] == '\n',
{
    let mut i: usize = from;
    while i < chars.len() && chars[i] != '\n'
        invariant
            from <= i <= chars@.len(),
            line_end(chars@, from as int) == line_end(chars@, i as int),
        decreases chars@.len() - i,
    {
        i += 1;
    }
    i
}

/// The index of the next quote or newline at or after `from`, or the length
/// of `chars`.
fn find_string_stop(chars: &Vec<char>, from: usize) -> (end: usize)
    requires
        from <= chars@.len(),
    ensures
        end == string_stop(chars@, from as int),
        from <= end <= chars@.len(),
{
    let mut i: usize = from;
    while i < chars.len() && chars[i] != '"' && chars[i] != '\n'
        invariant
            from <= i <= chars@.len(),
            string_stop(chars@, from as int) == string_stop(chars@, i as int),
        decreases chars@.len() - i,
    {
        i += 1;
    }
    i
}

/// The end of the number literal that starts at `from`.
fn find_number_end(chars: &Vec<char>, from: usize) -> (end: usize)
    requires
        from < chars@.len(),
        is_digit(chars@[from as int]),
    ensures
        end == number_end(chars@, from as int),
        from < end <= chars@.len(),
{
    proof {
        lemma_number_end_bounds(chars@, from as int);
    }
    let whole = find_digits_end(chars, from);
    if whole < chars.len() && chars[whole] == '.' && whole + 1 < chars.len() && digit(
        chars[whole + 1],
    ) {
        find_digits_end(chars, whole + 1)
    } else {
        whole
    }
}

/// The end of the identifier that starts at `from`.
fn find_identifier_end(chars: &Vec<char>, from: usize) -> (end: usize)
    requires
        from < chars@.len(),
    ensures
        end == identifier_end(chars@, from as int),
        from < end <= chars@.len(),
{
    let length = chars.len();
    let mut i: usize = from + 1;
    while i < length && identifier_part(chars[i])
        invariant
            from < i <= chars@.len(),
            length == chars@.len(),
            identifier_end(chars@, from as int) == run_end(
                chars@,
                i as int,
                |c: char| is_identifier_part(c),
            ),
        decreases chars@.len() - i,
    {
        i += 1;
    }
    i
}

impl Scanner {
    pub fn new() -> (scanner: Scanner)
        ensures
            scanner@ == fresh(),
    {
        let scanner = Scanner { cursor: 0, lexeme_start: 0, line_number: 1, tokens: Vec::new() };
        assert(scanner@.tokens =~= Seq::empty());
        scanner
    }

    /// Scans `source_code` from its first character, whatever this scanner
    /// has read before: hands back its tokens in source order, or the first
    /// lexical fault. Afterwards the scanner is as new, except that `tokens`
    /// holds the tokens handed back (none after a fault).
    pub fn scan(&mut self, source_code: &str) -> (result: Result<Vec<Token>, Error>)
        requires
            countable(source_code@),
        ensures
            scanned(result) == scan_text(source_code@),
            final(self)@ == (ScannerView { tokens: kept_tokens(source_code@), ..fresh() }),
    {
        self.restart();
        self.tokens = Vec::new();
        let chars = characters(source_code);
        let ghost s = source_code@;
        let length = chars.len();
        assert(token_views(self.tokens@) =~= Seq::empty());
        assert(Seq::<TokenView>::empty() + scan_text(s)->Ok_0 =~= scan_text(s)->Ok_0);
        while self.cursor < length
            invariant
                s == source_code@,
                chars@ == s,
                length == s.len(),
                self.cursor <= length,
                self.lexeme_start == self.cursor,
                1 <= self.line_number <= lines_until(s, self.cursor as int),
                newline_count(s) < i32::MAX,
                scan_text(s) == after(
                    token_views(self.tokens@),
                    scan_from(s, self.cursor as int, self.line_number as int),
                ),
            decreases length - self.cursor,
        {
            let start = self.lexeme_start;
            let c = chars[start];
            proof {
                lemma_scan_step(
                    s,
                    token_views(self.tokens@),
                    start as int,
                    self.line_number as int,
                );
                lemma_lexeme_bounds(s, start as int);
                lemma_newlines_monotonic(s, start as int, s.len() as int);
                assert(s.take(s.len() as int) =~= s);
            }
            if let Some(kind) = punctuation_kind(c) {
                let text = slice_text(&chars, start, start + 1);
                self.add_token(kind, text.as_str());
            } else if c == '/' {
                if start + 1 < length && chars[start + 1] == '/' {
                    let end = find_line_end(&chars, start);
                    if end < length {
                        proof {
                            lemma_newlines_monotonic(s, start as int, end as int);
                            lemma_newlines_step(s, end as int);
                            lemma_newlines_monotonic(s, end + 1, s.len() as int);
                        }
                        self.cursor = end + 1;
                        self.line_number += 1;
                    } else {
                        self.cursor = end;
                    }
                    self.lexeme_start = self.cursor;
                } else {
                    let text = slice_text(&chars, start, start + 1);
                    self.add_token(TokenType::Slash, text.as_str());
                }
            } else if c == '!' {
                self.scan_operator(&chars, TokenType::BangEqual, TokenType::Bang);
            } else if c == '=' {
                self.scan_operator(&chars, TokenType::EqualEqual, TokenType::Equal);
            } else if c == '>' {
                self.scan_operator(&chars, TokenType::GreaterEqual, TokenType::Greater);
            } else if c == '<' {
                self.scan_operator(&chars, TokenType::LessEqual, TokenType::Less);
            } else if c == '"' {
                let stop = find_string_stop(&chars, start + 1);
                if stop < length && chars[stop] == '"' {
                    let text = slice_text(&chars, start + 1, stop);
                    self.cursor = stop;
                    self.add_token(TokenType::String, text.as_str());
                } else {
                    let error = Error::new(self.line_number, "unterminated string");
                    self.restart();
                    self.tokens = Vec::new();
                    assert(token_views(self.tokens@) =~= Seq::empty());
                    return Err(error);
                }
            } else if c == ' ' || c == '\r' || c == '\t' {
                self.cursor += 1;
                self.lexeme_start = self.cursor;
            } else if c == '\n' {
                proof {
                    lemma_newlines_step(s, start as int);
                    lemma_newlines_monotonic(s, start + 1, s.len() as int);
                }
                self.cursor += 1;
                self.lexeme_start = self.cursor;
                self.line_number += 1;
            } else if digit(c) {
                let end = find_number_end(&chars, start);
                let text = slice_text(&chars, start, end);
                self.cursor = end - 1;
                self.add_token(TokenType::Number, text.as_str());
            } else if identifier_start(c) {
                let end = find_identifier_end(&chars, start);
                let text = slice_text(&chars, start, end);
                let kind = TokenType::from_str(text.as_str());
                self.cursor = end - 1;
                self.add_token(kind, text.as_str());
            } else {
                let mut message = String::from_str("unexpected character: ");
                message.push(c);
                let error = Error::new(self.line_number, message.as_str());
                self.restart();
                self.tokens = Vec::new();
                assert(token_views(self.tokens@) =~= Seq::empty());
                return Err(error);
            }
            proof {
                lemma_newlines_monotonic(s, start as int, self.cursor as int);
            }
        }
        let found = copy_tokens(&self.tokens);
        self.restart();
        assert(token_views(self.tokens@) + Seq::<TokenView>::empty() =~= token_views(
            self.tokens@,
        ));
        Ok(found)
    }

    /// Puts the cursor back to the start of a text, on line 1.
    fn restart(&mut self)
        ensures
            final(self)@ == (ScannerView { tokens: old(self)@.tokens, ..fresh() }),
            final(self).tokens == old(self).tokens,
    {
        self.cursor = 0;
        self.lexeme_start = 0;
        self.line_number = 1;
    }

    /// Adds the operator at the cursor: `long`, of two characters, where `=`
    /// follows, else `short`, of one.
    fn scan_operator(&mut self, chars: &Vec<char>, long: TokenType, short: TokenType)
        requires
            old(self).cursor < chars@.len(),
        ensures
            final(self).cursor == if old(self).cursor + 1 < chars@.len() && chars@[old(self).cursor
                + 1] == '=' {
                old(self).cursor + 2
            } else {
                old(self).cursor + 1
            },
            final(self).lexeme_start == final(self).cursor,
            final(self).line_number == old(self).line_number,
            token_views(final(self).tokens@) == token_views(old(self).tokens@).push(
                TokenView {
                    token_type: if old(self).cursor + 1 < chars@.len() && chars@[old(self).cursor
                        + 1] == '=' {
                        long
                    } else {
                        short
                    },
                    lexeme: chars@.subrange(old(self).cursor as int, final(self).cursor as int),
                    line_number: old(self).line_number as int,
                },
            ),
    {
        let start = self.cursor;
        let length = chars.len();
        if start + 1 < length && chars[start + 1] == '=' {
            let text = slice_text(chars, start, start + 2);
            self.cursor += 1;
            self.add_token(long, text.as_str());
        } else {
            let text = slice_text(chars, start, start + 1);
            self.add_token(short, text.as_str());
        }
    }

    /// Adds a token of kind `token_type` with lexeme `lexeme` on the current
    /// line, and moves the cursor one character on, to where the next lexeme
    /// starts.
    pub fn add_token(&mut self, token_type: TokenType, lexeme: &str)
        requires
            old(self)@.cursor < usize::MAX,
        ensures
            final(self)@ == with_token(old(self)@, token_type, lexeme@),
    {
        let token = Token::new(token_type, lexeme, self.line_number);
        self.tokens.push(token);
        self.cursor += 1;
        self.lexeme_start = self.cursor;
        assert(final(self)@.tokens =~= with_token(old(self)@, token_type, lexeme@).tokens);
    }
}

} // verus!
