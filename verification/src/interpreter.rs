//! The driver of the front end: it scans and parses one source text at a
//! time, and words the report of a fault.

use crate::ast::{Node, NodeView};
use crate::fault::Fault;
use crate::lexical::scan_text;
use crate::parser::grammar::parse_tokens;
use crate::parser::recursive_descent::RecursiveDescentParser;
use crate::parser::Parse;
use crate::scanner::{countable, Scanner};
use crate::token::{token_views, Token, TokenView};
use vstd::prelude::*;
use vstd::string::StringExecFns;

verus! {

/// The character of the decimal digit `d`, for `d` below ten.
pub open spec fn digit_char(d: nat) -> char {
    if d == 0 {
        '0'
    } else if d == 1 {
        '1'
    } else if d == 2 {
        '2'
    } else if d == 3 {
        '3'
    } else if d == 4 {
        '4'
    } else if d == 5 {
        '5'
    } else if d == 6 {
        '6'
    } else if d == 7 {
        '7'
    } else if d == 8 {
        '8'
    } else {
        '9'
    }
}

/// The decimal digits of `n`, without leading zeros.
pub open spec fn digits_of(n: nat) -> Seq<char>
    decreases n,
{
    if n < 10 {
        seq![digit_char(n)]
    } else {
        digits_of(n / 10).push(digit_char(n % 10))
    }
}

/// `n` in decimal, with a minus sign where it is negative.
pub open spec fn decimal_text(n: int) -> Seq<char> {
    if n < 0 {
        seq!['-'] + digits_of((-n) as nat)
    } else {
        digits_of(n as nat)
    }
}

/// The line by which a fault is reported.
pub open spec fn diagnostic_text(line: int, message: Seq<char>) -> Seq<char> {
    "[line "@ + decimal_text(line) + "] Error: "@ + message
}

/// What a run over one source text yields, as contracts speak of it.
pub struct OutcomeView {
    pub tokens: Seq<TokenView>,
    pub tree: Option<NodeView>,
    pub diagnostic: Option<Seq<char>>,
}

/// What a run over one source text yields: the tokens that were scanned, the
/// tree where they made an expression, and the line to report where the
/// source held a fault.
#[derive(Debug)]
pub struct Outcome {
    pub tokens: Vec<Token>,
    pub tree: Option<Node>,
    pub diagnostic: Option<String>,
}

impl View for Outcome {
    type V = OutcomeView;

    open spec fn view(&self) -> OutcomeView {
        OutcomeView {
            tokens: token_views(self.tokens@),
            tree: match self.tree {
                Some(node) => Some(node@),
                None => None,
            },
            diagnostic: match self.diagnostic {
                Some(text) => Some(text@),
                None => None,
            },
        }
    }
}

/// The outcome of a source text that holds `fault`, after `tokens` were scanned.
pub open spec fn faulty(tokens: Seq<TokenView>, fault: Fault) -> OutcomeView {
    OutcomeView {
        tokens,
        tree: None,
        diagnostic: Some(diagnostic_text(fault.line, fault.message)),
    }
}

/// The outcome of the source text `s`: a lexical fault ends the run before
/// any parsing; a fault of the parser leaves the tokens without a tree.
pub open spec fn run_text(s: Seq<char>) -> OutcomeView {
    match scan_text(s) {
        Ok(tokens) => match parse_tokens(tokens) {
            Ok(tree) => OutcomeView { tokens, tree: Some(tree), diagnostic: None },
            Err(fault) => faulty(tokens, fault),
        },
        Err(fault) => faulty(Seq::empty(), fault),
    }
}

/// A driver of the front end that remembers whether it has reported a fault.
pub struct Interpreter {
    had_error: bool,
}

fn digit_of(d: u32) -> (c: char)
    requires
        d < 10,
    ensures
        c == digit_char(d as nat),
{
    if d == 0 {
        '0'
    } else if d == 1 {
        '1'
    } else if d == 2 {
        '2'
    } else if d == 3 {
        '3'
    } else if d == 4 {
        '4'
    } else if d == 5 {
        '5'
    } else if d == 6 {
        '6'
    } else if d == 7 {
        '7'
    } else if d == 8 {
        '8'
    } else {
        '9'
    }
}

/// Appends the decimal digits of `n` to `text`.
fn push_digits(text: &mut String, n: u32)
    ensures
        final(text)@ == old(text)@ + digits_of(n as nat),
    decreases n,
{
    if n >= 10 {
        push_digits(text, n / 10);
    }
    text.push(digit_of(n % 10));
    assert(final(text)@ =~= old(text)@ + digits_of(n as nat));
}

impl Interpreter {
    /// Whether a fault has been reported since this interpreter was made.
    pub closed spec fn reported(&self) -> bool {
        self.had_error
    }

    pub fn new() -> (interpreter: Interpreter)
        ensures
            !interpreter.reported(),
    {
        Interpreter { had_error: false }
    }

    /// Whether a fault has been reported since this interpreter was made.
    pub fn had_error(&self) -> (r: bool)
        ensures
            r == self.reported(),
    {
        self.had_error
    }

    /// Scans and parses `source_code`. A fault is recorded, and its report
    /// is part of the outcome.
    pub fn run(&mut self, source_code: &str) -> (outcome: Outcome)
        requires
            countable(source_code@),
        ensures
            outcome@ == run_text(source_code@),
            final(self).reported() == (old(self).reported() || outcome@.diagnostic is Some),
    {
        let mut scanner = Scanner::new();
        match scanner.scan(source_code) {
            Err(error) => {
                let diagnostic = self.error(error.line_number, error.message.as_str());
                let outcome = Outcome {
                    tokens: Vec::new(),
                    tree: None,
                    diagnostic: Some(diagnostic),
                };
                assert(outcome@.tokens =~= Seq::empty());
                outcome
            },
            Ok(tokens) => {
                let mut parser = RecursiveDescentParser::new();
                match parser.parse(tokens.as_slice()) {
                    Ok(node) => Outcome { tokens, tree: Some(node), diagnostic: None },
                    Err(error) => {
                        let diagnostic = self.error(error.line_number, error.message.as_str());
                        Outcome { tokens, tree: None, diagnostic: Some(diagnostic) }
                    },
                }
            },
        }
    }

    /// Records a fault on line `line_number` and hands back the line that
    /// reports it.
    pub fn error(&mut self, line_number: i32, message: &str) -> (diagnostic: String)
        ensures
            diagnostic@ == diagnostic_text(line_number as int, message@),
            final(self).reported(),
    {
        self.report(line_number, message)
    }

    /// Records a fault on line `line_number` and hands back the line that
    /// reports it: `[line N] Error: ` and the message.
    pub fn report(&mut self, line_number: i32, message: &str) -> (diagnostic: String)
        ensures
            diagnostic@ == diagnostic_text(line_number as int, message@),
            final(self).reported(),
    {
        let mut diagnostic = String::from_str("[line ");
        if line_number < 0 {
            diagnostic.push('-');
            assert(diagnostic@ =~= "[line "@ + seq!['-']);
        }
        let wide = line_number as i64;
        let magnitude = if wide < 0 {
            (-wide) as u32
        } else {
            wide as u32
        };
        push_digits(&mut diagnostic, magnitude);
        diagnostic.append("] Error: ");
        diagnostic.append(message);
        self.had_error = true;
        assert(diagnostic@ =~= diagnostic_text(line_number as int, message@));
        diagnostic
    }
}

} // verus!
