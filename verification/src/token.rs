//! Tokens and their kinds.

use crate::text::{characters, spells};
use vstd::prelude::*;
use vstd::string::StringExecFns;

verus! {

/// The classification of a lexeme.
#[derive(Debug, Clone, Copy, PartialEq, Eq, Structural)]
pub enum TokenType {
    LeftParen,
    RightParen,
    LeftBrace,
    RightBrace,
    Semicolon,
    Comma,
    Dot,
    Plus,
    Minus,
    Star,
    Slash,
    Bang,
    BangEqual,
    Equal,
    EqualEqual,
    Greater,
    GreaterEqual,
    Less,
    LessEqual,
    Nil,
    True,
    False,
    And,
    Or,
    If,
    Else,
    For,
    While,
    Var,
    Fun,
    Return,
    Class,
    This,
    Super,
    Print,
    String,
    Number,
    Identifier,
}

/// A token as contracts speak of it: its kind, the characters of its lexeme
/// and its source line.
pub struct TokenView {
    pub token_type: TokenType,
    pub lexeme: Seq<char>,
    pub line_number: int,
}

/// A classified lexeme with the line it stands on.
#[derive(Debug, PartialEq)]
pub struct Token {
    pub token_type: TokenType,
    pub lexeme: String,
    pub line_number: i32,
}

impl View for Token {
    type V = TokenView;

    open spec fn view(&self) -> TokenView {
        TokenView {
            token_type: self.token_type,
            lexeme: self.lexeme@,
            line_number: self.line_number as int,
        }
    }
}

/// The views of a sequence of tokens, in the same order.
pub open spec fn token_views(tokens: Seq<Token>) -> Seq<TokenView> {
    tokens.map_values(|t: Token| t@)
}

impl TokenType {
    /// The kind of an identifier-shaped lexeme: the reserved word that it
    /// spells, or `Identifier` when it spells none.
    pub open spec fn classify(text: Seq<char>) -> TokenType {
        if text == "nil"@ {
            TokenType::Nil
        } else if text == "true"@ {
            TokenType::True
        } else if text == "false"@ {
            TokenType::False
        } else if text == "and"@ {
            TokenType::And
        } else if text == "or"@ {
            TokenType::Or
        } else if text == "if"@ {
            TokenType::If
        } else if text == "else"@ {
            TokenType::Else
        } else if text == "for"@ {
            TokenType::For
        } else if text == "while"@ {
            TokenType::While
        } else if text == "var"@ {
            TokenType::Var
        } else if text == "fun"@ {
            TokenType::Fun
        } else if text == "return"@ {
            TokenType::Return
        } else if text == "class"@ {
            TokenType::Class
        } else if text == "this"@ {
            TokenType::This
        } else if text == "super"@ {
            TokenType::Super
        } else if text == "print"@ {
            TokenType::Print
        } else {
            TokenType::Identifier
        }
    }

    /// Whether this kind is one of the sixteen reserved words.
    pub open spec fn is_keyword(self) -> bool {
        match self {
            TokenType::Nil
            | TokenType::True
            | TokenType::False
            | TokenType::And
            | TokenType::Or
            | TokenType::If
            | TokenType::Else
            | TokenType::For
            | TokenType::While
            | TokenType::Var
            | TokenType::Fun
            | TokenType::Return
            | TokenType::Class
            | TokenType::This
            | TokenType::Super
            | TokenType::Print => true,
            _ => false,
        }
    }

    /// Classifies the characters of an identifier-shaped lexeme.
    pub fn of_chars(chars: &Vec<char>) -> (kind: TokenType)
        ensures
            kind == Self::classify(chars@),
    {
        if spells(chars, "nil") {
            TokenType::Nil
        } else if spells(chars, "true") {
            TokenType::True
        } else if spells(chars, "false") {
            TokenType::False
        } else if spells(chars, "and") {
            TokenType::And
        } else if spells(chars, "or") {
            TokenType::Or
        } else if spells(chars, "if") {
            TokenType::If
        } else if spells(chars, "else") {
            TokenType::Else
        } else if spells(chars, "for") {
            TokenType::For
        } else if spells(chars, "while") {
            TokenType::While
        } else if spells(chars, "var") {
            TokenType::Var
        } else if spells(chars, "fun") {
            TokenType::Fun
        } else if spells(chars, "return") {
            TokenType::Return
        } else if spells(chars, "class") {
            TokenType::Class
        } else if spells(chars, "this") {
            TokenType::This
        } else if spells(chars, "super") {
            TokenType::Super
        } else if spells(chars, "print") {
            TokenType::Print
        } else {
            TokenType::Identifier
        }
    }

    /// The reserved word that `identifier_literal` spells, or `Identifier`.
    pub fn from_str(identifier_literal: &str) -> (kind: TokenType)
        ensures
            kind == Self::classify(identifier_literal@),
            kind.is_keyword() || kind == TokenType::Identifier,
    {
        let chars = characters(identifier_literal);
        Self::of_chars(&chars)
    }
}

impl Token {
    pub fn new(token_type: TokenType, lexeme: &str, line_number: i32) -> (token: Token)
        ensures
            token@ == (TokenView {
                token_type,
                lexeme: lexeme@,
                line_number: line_number as int,
            }),
    {
        Token { token_type, lexeme: String::from_str(lexeme), line_number }
    }
}

impl Clone for Token {
    fn clone(&self) -> (copy: Token)
        ensures
            copy@ == self@,
    {
        Token {
            token_type: self.token_type,
            lexeme: self.lexeme.clone(),
            line_number: self.line_number,
        }
    }
}

/// A copy of `tokens`, token by token.
pub fn copy_tokens(tokens: &Vec<Token>) -> (copy: Vec<Token>)
    ensures
        token_views(copy@) == token_views(tokens@),
{
    let mut copy: Vec<Token> = Vec::new();
    let mut i: usize = 0;
    while i < tokens.len()
        invariant
            i <= tokens@.len(),
            copy@.len() == i,
            forall|j: int| 0 <= j < i ==> copy@[j]@ == tokens@[j]@,
        decreases tokens@.len() - i,
    {
        copy.push(tokens[i].clone());
        i += 1;
    }
    assert(token_views(copy@) =~= token_views(tokens@));
    copy
}

} // verus!
