//! The recursive-descent parser: one method to each rule of the grammar.

use crate::ast::{
    ComparisonOperator, EqualityOperator, Literal, Node, ProductOperator, SumOperator,
    UnaryOperator,
};
use crate::fault::Fault;
use crate::number::float_text;
use crate::parser::grammar::{
    end_of_input, parse_chain, parse_operand, parse_primary, parse_tier, parse_unary, start_symbol,
    unexpected_token, Parsed, Tier,
};
use crate::parser::{Error, Parse};
use crate::token::{token_views, Token, TokenType, TokenView};
use vstd::prelude::*;
use vstd::string::StringExecFns;

verus! {

/// A parser that descends through the grammar's tiers, one method to a rule.
pub struct RecursiveDescentParser<'a> {
    cursor: usize,
    tokens: &'a [Token],
}

/// What a rule hands back, as contracts speak of it: the tree with the
/// number of tokens that the cursor moved over, or the fault.
pub open spec fn reduced(result: Result<Node, Error>, from: nat, to: nat) -> Result<Parsed, Fault> {
    match result {
        Ok(node) => Ok(Parsed { tree: node@, used: (to - from) as nat }),
        Err(error) => Err(error@),
    }
}

/// One step of a chain: with an operator of the tier after `left`, the chain
/// goes on with the operand after it; without one, it ends with `left`.
proof fn lemma_chain_unfolds(tokens: Seq<TokenView>, tier: Tier, pos: nat, left: Parsed)
    ensures
        parse_chain(tokens, tier, pos, left) == if pos + left.used < tokens.len()
            && tier.has_operator(tokens[(pos + left.used) as int].token_type) {
            match parse_operand(tokens, tier, (pos + left.used + 1) as nat) {
                Ok(right) => parse_chain(
                    tokens,
                    tier,
                    pos,
                    Parsed {
                        tree: tier.join(
                            tokens[(pos + left.used) as int].token_type,
                            left.tree,
                            right.tree,
                        ),
                        used: left.used + 1 + right.used,
                    },
                ),
                Err(fault) => Err(fault),
            }
        } else {
            Ok(left)
        },
        parse_operand(tokens, Tier::Series, pos) == parse_tier(tokens, Tier::Equality, pos),
        parse_operand(tokens, Tier::Equality, pos) == parse_tier(tokens, Tier::Comparison, pos),
        parse_operand(tokens, Tier::Comparison, pos) == parse_tier(tokens, Tier::Sum, pos),
        parse_operand(tokens, Tier::Sum, pos) == parse_tier(tokens, Tier::Product, pos),
        parse_operand(tokens, Tier::Product, pos) == parse_unary(tokens, pos),
{
}

impl<'a> RecursiveDescentParser<'a> {
    /// The index of the token that is looked at.
    pub closed spec fn position(&self) -> nat {
        self.cursor as nat
    }

    /// The tokens that are being parsed.
    pub closed spec fn input(&self) -> Seq<TokenView> {
        token_views(self.tokens@)
    }

    pub fn new() -> (parser: Self)
        ensures
            parser.position() == 0,
            parser.input() == Seq::<TokenView>::empty(),
    {
        let parser = RecursiveDescentParser { cursor: 0, tokens: &[] };
        assert(parser.input() =~= Seq::<TokenView>::empty());
        parser
    }

    /// The error of a token that cannot stand where it does.
    fn unexpected(token: &Token) -> (error: Error)
        ensures
            error@ == unexpected_token(token@),
    {
        let mut message = String::from_str("unexpected token: ");
        message.append(token.lexeme.as_str());
        Error { line_number: token.line_number, message }
    }

    /// The error of tokens that end where an operand is due.
    fn ended(&self) -> (error: Error)
        ensures
            error@ == end_of_input(self.input()),
    {
        let line = if self.tokens.len() > 0 {
            self.tokens[self.tokens.len() - 1].line_number
        } else {
            1
        };
        Error::new(line, "unexpected end of input")
    }

    fn parse_primary(&mut self) -> (result: Result<Node, Error>)
        requires
            old(self).position() <= old(self).input().len(),
        ensures
            final(self).tokens == old(self).tokens,
            old(self).position() <= final(self).position() <= old(self).input().len(),
            reduced(result, old(self).position(), final(self).position()) == parse_primary(
                old(self).input(),
                old(self).position(),
            ),
        decreases old(self).input().len() - old(self).position(), 0nat, 0nat,
    {
        if self.cursor >= self.tokens.len() {
            return Err(self.ended());
        }
        let token = &self.tokens[self.cursor];
        match token.token_type {
            TokenType::Nil => {
                self.cursor += 1;
                Ok(Node::Primary(Literal::Nil))
            },
            TokenType::True => {
                self.cursor += 1;
                Ok(Node::Primary(Literal::True))
            },
            TokenType::False => {
                self.cursor += 1;
                Ok(Node::Primary(Literal::False))
            },
            TokenType::Number => {
                if float_text(token.lexeme.as_str()) {
                    self.cursor += 1;
                    Ok(Node::Primary(Literal::Number(token.lexeme.clone())))
                } else {
                    Err(Error::new(token.line_number, "failed to parse number"))
                }
            },
            TokenType::String => {
                self.cursor += 1;
                Ok(Node::Primary(Literal::String(token.lexeme.clone())))
            },
            TokenType::LeftParen => {
                self.cursor += 1;
                match self.parse_series() {
                    Ok(node) => {
                        if self.cursor < self.tokens.len() && self.tokens[self.cursor].token_type
                            == TokenType::RightParen {
                            self.cursor += 1;
                            Ok(node)
                        } else {
                            Err(Self::unexpected(&self.tokens[self.cursor - 1]))
                        }
                    },
                    Err(error) => Err(error),
                }
            },
            _ => Err(Self::unexpected(token)),
        }
    }

    fn parse_unary(&mut self) -> (result: Result<Node, Error>)
        requires
            old(self).position() <= old(self).input().len(),
        ensures
            final(self).tokens == old(self).tokens,
            old(self).position() <= final(self).position() <= old(self).input().len(),
            reduced(result, old(self).position(), final(self).position()) == parse_unary(
                old(self).input(),
                old(self).position(),
            ),
        decreases old(self).input().len() - old(self).position(), 1nat, 0nat,
    {
        if self.cursor >= self.tokens.len() {
            return self.parse_primary();
        }
        match self.tokens[self.cursor].token_type {
            TokenType::Bang => {
                self.cursor += 1;
                match self.parse_unary() {
                    Ok(operand) => Ok(Node::Unary(UnaryOperator::Bang, Box::new(operand))),
                    Err(error) => Err(error),
                }
            },
            TokenType::Minus => {
                self.cursor += 1;
                match self.parse_unary() {
                    Ok(operand) => Ok(Node::Unary(UnaryOperator::Minus, Box::new(operand))),
                    Err(error) => Err(error),
                }
            },
            _ => self.parse_primary(),
        }
    }

    /// The expression at the cursor, wrapped as the grammar's start symbol.
    fn parse_expression(&mut self) -> (result: Result<Node, Error>)
        requires
            old(self).position() <= old(self).input().len(),
        ensures
            final(self).tokens == old(self).tokens,
            old(self).position() <= final(self).position() <= old(self).input().len(),
            reduced(result, old(self).position(), final(self).position()) == start_symbol(
                parse_tier(old(self).input(), Tier::Series, old(self).position()),
            ),
    {
        match self.parse_series() {
            Ok(node) => Ok(Node::Expression(Box::new(node))),
            Err(error) => Err(error),
        }
    }

    fn parse_series(&mut self) -> (result: Result<Node, Error>)
        requires
            old(self).position() <= old(self).input().len(),
        ensures
            final(self).tokens == old(self).tokens,
            old(self).position() <= final(self).position() <= old(self).input().len(),
            reduced(result, old(self).position(), final(self).position()) == parse_tier(
                old(self).input(),
                Tier::Series,
                old(self).position(),
            ),
        decreases old(self).input().len() - old(self).position(), 6nat, 2nat,
    {
        let ghost tokens = self.input();
        let ghost start = self.position();
        let mut node = match self.parse_equality() {
            Ok(first) => first,
            Err(error) => {
                return Err(error);
            },
        };
        while self.cursor < self.tokens.len()
            invariant
                self.tokens == old(self).tokens,
                tokens == self.input(),
                start == old(self).position(),
                start <= self.position() <= tokens.len(),
                parse_tier(tokens, Tier::Series, start) == parse_chain(
                    tokens,
                    Tier::Series,
                    start,
                    Parsed { tree: node@, used: (self.position() - start) as nat },
                ),
            ensures
                self.tokens == old(self).tokens,
                start <= self.position() <= tokens.len(),
                parse_tier(tokens, Tier::Series, start) == Ok::<Parsed, Fault>(
                    Parsed { tree: node@, used: (self.position() - start) as nat },
                ),
            decreases tokens.len() - self.position(),
        {
            proof {
                lemma_chain_unfolds(
                    tokens,
                    Tier::Series,
                    start,
                    Parsed { tree: node@, used: (self.position() - start) as nat },
                );
            }
            match self.tokens[self.cursor].token_type {
                TokenType::Comma => {
                    self.cursor += 1;
                    match self.parse_equality() {
                        Ok(right) => {
                            node = Node::Series(Box::new(node), Box::new(right));
                        },
                        Err(error) => {
                            return Err(error);
                        },
                    }
                },
                _ => {
                    break ;
                },
            }
        }
        Ok(node)
    }

    fn parse_equality(&mut self) -> (result: Result<Node, Error>)
        requires
            old(self).position() <= old(self).input().len(),
        ensures
            final(self).tokens == old(self).tokens,
            old(self).position() <= final(self).position() <= old(self).input().len(),
            reduced(result, old(self).position(), final(self).position()) == parse_tier(
                old(self).input(),
                Tier::Equality,
                old(self).position(),
            ),
        decreases old(self).input().len() - old(self).position(), 5nat, 2nat,
    {
        let ghost tokens = self.input();
        let ghost start = self.position();
        let mut node = match self.parse_comparison() {
            Ok(first) => first,
            Err(error) => {
                return Err(error);
            },
        };
        while self.cursor < self.tokens.len()
            invariant
                self.tokens == old(self).tokens,
                tokens == self.input(),
                start == old(self).position(),
                start <= self.position() <= tokens.len(),
                parse_tier(tokens, Tier::Equality, start) == parse_chain(
                    tokens,
                    Tier::Equality,
                    start,
                    Parsed { tree: node@, used: (self.position() - start) as nat },
                ),
            ensures
                self.tokens == old(self).tokens,
                start <= self.position() <= tokens.len(),
                parse_tier(tokens, Tier::Equality, start) == Ok::<Parsed, Fault>(
                    Parsed { tree: node@, used: (self.position() - start) as nat },
                ),
            decreases tokens.len() - self.position(),
        {
            proof {
                lemma_chain_unfolds(
                    tokens,
                    Tier::Equality,
                    start,
                    Parsed { tree: node@, used: (self.position() - start) as nat },
                );
            }
            match self.tokens[self.cursor].token_type {
                TokenType::EqualEqual => {
                    self.cursor += 1;
                    match self.parse_comparison() {
                        Ok(right) => {
                            node = Node::Equality(
                                EqualityOperator::Equal,
                                Box::new(node),
                                Box::new(right),
                            );
                        },
                        Err(error) => {
                            return Err(error);
                        },
                    }
                },
                TokenType::BangEqual => {
                    self.cursor += 1;
                    match self.parse_comparison() {
                        Ok(right) => {
                            node = Node::Equality(
                                EqualityOperator::NotEqual,
                                Box::new(node),
                                Box::new(right),
                            );
                        },
                        Err(error) => {
                            return Err(error);
                        },
                    }
                },
                _ => {
                    break ;
                },
            }
        }
        Ok(node)
    }

    fn parse_comparison(&mut self) -> (result: Result<Node, Error>)
        requires
            old(self).position() <= old(self).input().len(),
        ensures
            final(self).tokens == old(self).tokens,
            old(self).position() <= final(self).position() <= old(self).input().len(),
            reduced(result, old(self).position(), final(self).position()) == parse_tier(
                old(self).input(),
                Tier::Comparison,
                old(self).position(),
            ),
        decreases old(self).input().len() - old(self).position(), 4nat, 2nat,
    {
        let ghost tokens = self.input();
        let ghost start = self.position();
        let mut node = match self.parse_sum() {
            Ok(first) => first,
            Err(error) => {
                return Err(error);
            },
        };
        while self.cursor < self.tokens.len()
            invariant
                self.tokens == old(self).tokens,
                tokens == self.input(),
                start == old(self).position(),
                start <= self.position() <= tokens.len(),
                parse_tier(tokens, Tier::Comparison, start) == parse_chain(
                    tokens,
                    Tier::Comparison,
                    start,
                    Parsed { tree: node@, used: (self.position() - start) as nat },
                ),
            ensures
                self.tokens == old(self).tokens,
                start <= self.position() <= tokens.len(),
                parse_tier(tokens, Tier::Comparison, start) == Ok::<Parsed, Fault>(
                    Parsed { tree: node@, used: (self.position() - start) as nat },
                ),
            decreases tokens.len() - self.position(),
        {
            proof {
                lemma_chain_unfolds(
                    tokens,
                    Tier::Comparison,
                    start,
                    Parsed { tree: node@, used: (self.position() - start) as nat },
                );
            }
            match self.tokens[self.cursor].token_type {
                TokenType::Greater => {
                    self.cursor += 1;
                    match self.parse_sum() {
                        Ok(right) => {
                            node = Node::Comparison(
                                ComparisonOperator::Greater,
                                Box::new(node),
                                Box::new(right),
                            );
                        },
                        Err(error) => {
                            return Err(error);
                        },
                    }
                },
                TokenType::GreaterEqual => {
                    self.cursor += 1;
                    match self.parse_sum() {
                        Ok(right) => {
                            node = Node::Comparison(
                                ComparisonOperator::GreaterEqual,
                                Box::new(node),
                                Box::new(right),
                            );
                        },
                        Err(error) => {
                            return Err(error);
                        },
                    }
                },
                TokenType::Less => {
                    self.cursor += 1;
                    match self.parse_sum() {
                        Ok(right) => {
                            node = Node::Comparison(
                                ComparisonOperator::Less,
                                Box::new(node),
                                Box::new(right),
                            );
                        },
                        Err(error) => {
                            return Err(error);
                        },
                    }
                },
                TokenType::LessEqual => {
                    self.cursor += 1;
                    match self.parse_sum() {
                        Ok(right) => {
                            node = Node::Comparison(
                                ComparisonOperator::LessEqual,
                                Box::new(node),
                                Box::new(right),
                            );
                        },
                        Err(error) => {
                            return Err(error);
                        },
                    }
                },
                _ => {
                    break ;
                },
            }
        }
        Ok(node)
    }

    fn parse_sum(&mut self) -> (result: Result<Node, Error>)
        requires
            old(self).position() <= old(self).input().len(),
        ensures
            final(self).tokens == old(self).tokens,
            old(self).position() <= final(self).position() <= old(self).input().len(),
            reduced(result, old(self).position(), final(self).position()) == parse_tier(
                old(self).input(),
                Tier::Sum,
                old(self).position(),
            ),
        decreases old(self).input().len() - old(self).position(), 3nat, 2nat,
    {
        let ghost tokens = self.input();
        let ghost start = self.position();
        let mut node = match self.parse_product() {
            Ok(first) => first,
            Err(error) => {
                return Err(error);
            },
        };
        while self.cursor < self.tokens.len()
            invariant
                self.tokens == old(self).tokens,
                tokens == self.input(),
                start == old(self).position(),
                start <= self.position() <= tokens.len(),
                parse_tier(tokens, Tier::Sum, start) == parse_chain(
                    tokens,
                    Tier::Sum,
                    start,
                    Parsed { tree: node@, used: (self.position() - start) as nat },
                ),
            ensures
                self.tokens == old(self).tokens,
                start <= self.position() <= tokens.len(),
                parse_tier(tokens, Tier::Sum, start) == Ok::<Parsed, Fault>(
                    Parsed { tree: node@, used: (self.position() - start) as nat },
                ),
            decreases tokens.len() - self.position(),
        {
            proof {
                lemma_chain_unfolds(
                    tokens,
                    Tier::Sum,
                    start,
                    Parsed { tree: node@, used: (self.position() - start) as nat },
                );
            }
            match self.tokens[self.cursor].token_type {
                TokenType::Plus => {
                    self.cursor += 1;
                    match self.parse_product() {
                        Ok(right) => {
                            node = Node::Sum(SumOperator::Plus, Box::new(node), Box::new(right));
                        },
                        Err(error) => {
                            return Err(error);
                        },
                    }
                },
                TokenType::Minus => {
                    self.cursor += 1;
                    match self.parse_product() {
                        Ok(right) => {
                            node = Node::Sum(SumOperator::Minus, Box::new(node), Box::new(right));
                        },
                        Err(error) => {
                            return Err(error);
                        },
                    }
                },
                _ => {
                    break ;
                },
            }
        }
        Ok(node)
    }

    fn parse_product(&mut self) -> (result: Result<Node, Error>)
        requires
            old(self).position() <= old(self).input().len(),
        ensures
            final(self).tokens == old(self).tokens,
            old(self).position() <= final(self).position() <= old(self).input().len(),
            reduced(result, old(self).position(), final(self).position()) == parse_tier(
                old(self).input(),
                Tier::Product,
                old(self).position(),
            ),
        decreases old(self).input().len() - old(self).position(), 2nat, 2nat,
    {
        let ghost tokens = self.input();
        let ghost start = self.position();
        let mut node = match self.parse_unary() {
            Ok(first) => first,
            Err(error) => {
                return Err(error);
            },
        };
        while self.cursor < self.tokens.len()
            invariant
                self.tokens == old(self).tokens,
                tokens == self.input(),
                start == old(self).position(),
                start <= self.position() <= tokens.len(),
                parse_tier(tokens, Tier::Product, start) == parse_chain(
                    tokens,
                    Tier::Product,
                    start,
                    Parsed { tree: node@, used: (self.position() - start) as nat },
                ),
            ensures
                self.tokens == old(self).tokens,
                start <= self.position() <= tokens.len(),
                parse_tier(tokens, Tier::Product, start) == Ok::<Parsed, Fault>(
                    Parsed { tree: node@, used: (self.position() - start) as nat },
                ),
            decreases tokens.len() - self.position(),
        {
            proof {
                lemma_chain_unfolds(
                    tokens,
                    Tier::Product,
                    start,
                    Parsed { tree: node@, used: (self.position() - start) as nat },
                );
            }
            match self.tokens[self.cursor].token_type {
                TokenType::Star => {
                    self.cursor += 1;
                    match self.parse_unary() {
                        Ok(right) => {
                            node = Node::Product(
                                ProductOperator::Star,
                                Box::new(node),
                                Box::new(right),
                            );
                        },
                        Err(error) => {
                            return Err(error);
                        },
                    }
                },
                TokenType::Slash => {
                    self.cursor += 1;
                    match self.parse_unary() {
                        Ok(right) => {
                            node = Node::Product(
                                ProductOperator::Slash,
                                Box::new(node),
                                Box::new(right),
                            );
                        },
                        Err(error) => {
                            return Err(error);
                        },
                    }
                },
                _ => {
                    break ;
                },
            }
        }
        Ok(node)
    }
}

impl<'a> Parse<'a> for RecursiveDescentParser<'a> {
    /// Parses `tokens` from the first one on. Afterwards the parser holds
    /// `tokens`, with its cursor behind the last of them where they made an
    /// expression, and back at the first where they did not.
    fn parse(&mut self, tokens: &'a [Token]) -> (result: Result<Node, Error>)
        ensures
            final(self).input() == token_views(tokens@),
            final(self).position() == if result is Ok {
                tokens@.len()
            } else {
                0
            },
    {
        self.tokens = tokens;
        self.cursor = 0;
        match self.parse_expression() {
            Ok(node) => {
                if self.cursor < self.tokens.len() {
                    let error = Error::new(
                        self.tokens[self.cursor].line_number,
                        "unexpected trailing token",
                    );
                    self.cursor = 0;
                    Err(error)
                } else {
                    Ok(node)
                }
            },
            Err(error) => {
                self.cursor = 0;
                Err(error)
            },
        }
    }
}

} // verus!
