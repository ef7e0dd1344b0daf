//! The grammar of expressions, as specification: the tree that each rule
//! makes of the tokens at a position, or the fault that it finds.

use crate::ast::{
    ComparisonOperator, EqualityOperator, LiteralView, NodeView, ProductOperator, SumOperator,
    UnaryOperator,
};
use crate::fault::Fault;
use crate::number::is_float_text;
use crate::token::{TokenType, TokenView};
use vstd::prelude::*;

verus! {

/// A tier of left-associative binary operators, from the loosest to the
/// tightest.
pub enum Tier {
    Series,
    Equality,
    Comparison,
    Sum,
    Product,
}

/// A tree with the number of tokens that it spans.
pub struct Parsed {
    pub tree: NodeView,
    pub used: nat,
}

/// The number of tokens from `pos` to the end.
pub open spec fn remaining(tokens: Seq<TokenView>, pos: nat) -> nat {
    if pos < tokens.len() {
        (tokens.len() - pos) as nat
    } else {
        0
    }
}

impl Tier {
    /// How loosely the tier binds: the looser, the higher.
    pub open spec fn rank(self) -> nat {
        match self {
            Tier::Series => 6,
            Tier::Equality => 5,
            Tier::Comparison => 4,
            Tier::Sum => 3,
            Tier::Product => 2,
        }
    }

    /// Whether a token of kind `kind` is an operator of this tier.
    pub open spec fn has_operator(self, kind: TokenType) -> bool {
        match self {
            Tier::Series => kind == TokenType::Comma,
            Tier::Equality => kind == TokenType::EqualEqual || kind == TokenType::BangEqual,
            Tier::Comparison => kind == TokenType::Greater || kind == TokenType::GreaterEqual
                || kind == TokenType::Less || kind == TokenType::LessEqual,
            Tier::Sum => kind == TokenType::Plus || kind == TokenType::Minus,
            Tier::Product => kind == TokenType::Star || kind == TokenType::Slash,
        }
    }

    /// The node that joins `left` and `right` by the operator of kind `kind`
    /// of this tier.
    pub open spec fn join(self, kind: TokenType, left: NodeView, right: NodeView) -> NodeView {
        match self {
            Tier::Series => NodeView::Series(Box::new(left), Box::new(right)),
            Tier::Equality => NodeView::Equality(
                if kind == TokenType::EqualEqual {
                    EqualityOperator::Equal
                } else {
                    EqualityOperator::NotEqual
                },
                Box::new(left),
                Box::new(right),
            ),
            Tier::Comparison => NodeView::Comparison(
                if kind == TokenType::Greater {
                    ComparisonOperator::Greater
                } else if kind == TokenType::GreaterEqual {
                    ComparisonOperator::GreaterEqual
                } else if kind == TokenType::Less {
                    ComparisonOperator::Less
                } else {
                    ComparisonOperator::LessEqual
                },
                Box::new(left),
                Box::new(right),
            ),
            Tier::Sum => NodeView::Sum(
                if kind == TokenType::Plus {
                    SumOperator::Plus
                } else {
                    SumOperator::Minus
                },
                Box::new(left),
                Box::new(right),
            ),
            Tier::Product => NodeView::Product(
                if kind == TokenType::Star {
                    ProductOperator::Star
                } else {
                    ProductOperator::Slash
                },
                Box::new(left),
                Box::new(right),
            ),
        }
    }
}

/// The prefix operator that a token of kind `kind` stands for, if any.
pub open spec fn unary_operator(kind: TokenType) -> Option<UnaryOperator> {
    if kind == TokenType::Bang {
        Some(UnaryOperator::Bang)
    } else if kind == TokenType::Minus {
        Some(UnaryOperator::Minus)
    } else {
        None
    }
}

/// The fault of a token that cannot stand where it does.
pub open spec fn unexpected_token(token: TokenView) -> Fault {
    Fault { line: token.line_number, message: "unexpected token: "@ + token.lexeme }
}

/// The fault of a number token whose lexeme is no well-formed literal.
pub open spec fn malformed_number(token: TokenView) -> Fault {
    Fault { line: token.line_number, message: "failed to parse number"@ }
}

/// The fault of a token that follows a complete expression.
pub open spec fn trailing_token(token: TokenView) -> Fault {
    Fault { line: token.line_number, message: "unexpected trailing token"@ }
}

/// The fault of tokens that end where an operand is due: it cites the line of
/// the last token, or line 1 where there is no token at all.
pub open spec fn end_of_input(tokens: Seq<TokenView>) -> Fault {
    Fault {
        line: if tokens.len() > 0 {
            tokens.last().line_number
        } else {
            1
        },
        message: "unexpected end of input"@,
    }
}

/// The primary expression at `pos`: a literal, or an expression in
/// parentheses, which stands for the tree of the expression itself.
pub open spec fn parse_primary(tokens: Seq<TokenView>, pos: nat) -> Result<Parsed, Fault>
    decreases remaining(tokens, pos), 0nat, 0nat,
{
    if pos >= tokens.len() {
        Err(end_of_input(tokens))
    } else {
        let token = tokens[pos as int];
        match token.token_type {
            TokenType::Nil => Ok(Parsed { tree: NodeView::Primary(LiteralView::Nil), used: 1 }),
            TokenType::True => Ok(Parsed { tree: NodeView::Primary(LiteralView::True), used: 1 }),
            TokenType::False => Ok(
                Parsed { tree: NodeView::Primary(LiteralView::False), used: 1 },
            ),
            TokenType::Number => if is_float_text(token.lexeme) {
                Ok(Parsed { tree: NodeView::Primary(LiteralView::Number(token.lexeme)), used: 1 })
            } else {
                Err(malformed_number(token))
            },
            TokenType::String => Ok(
                Parsed { tree: NodeView::Primary(LiteralView::String(token.lexeme)), used: 1 },
            ),
            TokenType::LeftParen => match parse_tier(tokens, Tier::Series, pos + 1) {
                Ok(inner) => {
                    let close = pos + 1 + inner.used;
                    if close < tokens.len() && tokens[close as int].token_type
                        == TokenType::RightParen {
                        Ok(Parsed { tree: inner.tree, used: inner.used + 2 })
                    } else {
                        Err(unexpected_token(tokens[close - 1]))
                    }
                },
                Err(fault) => Err(fault),
            },
            _ => Err(unexpected_token(token)),
        }
    }
}

/// The unary expression at `pos`: prefix operators, each applied to the unary
/// expression after it, down to a primary expression.
pub open spec fn parse_unary(tokens: Seq<TokenView>, pos: nat) -> Result<Parsed, Fault>
    decreases remaining(tokens, pos), 1nat, 0nat,
{
    if pos < tokens.len() && unary_operator(tokens[pos as int].token_type) is Some {
        match parse_unary(tokens, pos + 1) {
            Ok(operand) => Ok(
                Parsed {
                    tree: NodeView::Unary(
                        unary_operator(tokens[pos as int].token_type)->Some_0,
                        Box::new(operand.tree),
                    ),
                    used: operand.used + 1,
                },
            ),
            Err(fault) => Err(fault),
        }
    } else {
        parse_primary(tokens, pos)
    }
}

/// An operand of tier `tier` at `pos`: an expression of the next tighter
/// tier, which for products is a unary expression.
pub open spec fn parse_operand(tokens: Seq<TokenView>, tier: Tier, pos: nat) -> Result<
    Parsed,
    Fault,
>
    decreases remaining(tokens, pos), tier.rank(), 1nat,
{
    match tier {
        Tier::Series => parse_tier(tokens, Tier::Equality, pos),
        Tier::Equality => parse_tier(tokens, Tier::Comparison, pos),
        Tier::Comparison => parse_tier(tokens, Tier::Sum, pos),
        Tier::Sum => parse_tier(tokens, Tier::Product, pos),
        Tier::Product => parse_unary(tokens, pos),
    }
}

/// The rest of a chain of tier `tier` that starts at `pos` and of which
/// `left` is read: each further operator of the tier joins what is read, on
/// its left, with the operand after it, on its right.
pub open spec fn parse_chain(tokens: Seq<TokenView>, tier: Tier, pos: nat, left: Parsed) -> Result<
    Parsed,
    Fault,
>
    decreases remaining(tokens, pos + left.used), tier.rank(), 0nat,
{
    let at = pos + left.used;
    if at < tokens.len() && tier.has_operator(tokens[at as int].token_type) {
        match parse_operand(tokens, tier, (at + 1) as nat) {
            Ok(right) => parse_chain(
                tokens,
                tier,
                pos,
                Parsed {
                    tree: tier.join(tokens[at as int].token_type, left.tree, right.tree),
                    used: left.used + 1 + right.used,
                },
            ),
            Err(fault) => Err(fault),
        }
    } else {
        Ok(left)
    }
}

/// The expression of tier `tier` at `pos`: operands joined by the operators
/// of the tier, grouped from the left.
pub open spec fn parse_tier(tokens: Seq<TokenView>, tier: Tier, pos: nat) -> Result<Parsed, Fault>
    decreases remaining(tokens, pos), tier.rank(), 2nat,
{
    match parse_operand(tokens, tier, pos) {
        Ok(first) => parse_chain(tokens, tier, pos, first),
        Err(fault) => Err(fault),
    }
}

/// What the start symbol makes of a series: the same tree in an `Expression`
/// node, over the same tokens.
pub open spec fn start_symbol(series: Result<Parsed, Fault>) -> Result<Parsed, Fault> {
    match series {
        Ok(parsed) => Ok(
            Parsed { tree: NodeView::Expression(Box::new(parsed.tree)), used: parsed.used },
        ),
        Err(fault) => Err(fault),
    }
}

/// The tree of a whole token sequence: the expression that starts at its
/// first token, wrapped as the start symbol, where no token is left over.
pub open spec fn parse_tokens(tokens: Seq<TokenView>) -> Result<NodeView, Fault> {
    match start_symbol(parse_tier(tokens, Tier::Series, 0)) {
        Ok(parsed) => if parsed.used < tokens.len() {
            Err(trailing_token(tokens[parsed.used as int]))
        } else {
            Ok(parsed.tree)
        },
        Err(fault) => Err(fault),
    }
}

} // verus!
