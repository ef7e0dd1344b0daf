//! The syntax tree: its nodes, its operators and its literals, with the
//! mathematical views by which contracts speak of them.

use vstd::prelude::*;

verus! {

#[derive(Debug, Clone, Copy, PartialEq, Eq, Structural)]
pub enum EqualityOperator {
    Equal,
    NotEqual,
}

#[derive(Debug, Clone, Copy, PartialEq, Eq, Structural)]
pub enum ComparisonOperator {
    Greater,
    GreaterEqual,
    Less,
    LessEqual,
}

#[derive(Debug, Clone, Copy, PartialEq, Eq, Structural)]
pub enum SumOperator {
    Plus,
    Minus,
}

#[derive(Debug, Clone, Copy, PartialEq, Eq, Structural)]
pub enum ProductOperator {
    Star,
    Slash,
}

#[derive(Debug, Clone, Copy, PartialEq, Eq, Structural)]
pub enum UnaryOperator {
    Bang,
    Minus,
}

/// A literal value. A number is kept as the text of its literal, which the
/// parser has checked to be well formed; its numeric value is for the
/// consumer of the tree to compute.
#[derive(Debug, PartialEq)]
pub enum Literal {
    Nil,
    True,
    False,
    String(String),
    Number(String),
}

/// A node of the syntax tree. Each variant owns its operands.
#[derive(Debug, PartialEq)]
pub enum Node {
    Expression(Box<Node>),
    Series(Box<Node>, Box<Node>),
    Equality(EqualityOperator, Box<Node>, Box<Node>),
    Comparison(ComparisonOperator, Box<Node>, Box<Node>),
    Sum(SumOperator, Box<Node>, Box<Node>),
    Product(ProductOperator, Box<Node>, Box<Node>),
    Unary(UnaryOperator, Box<Node>),
    Primary(Literal),
}

/// A literal as contracts speak of it.
pub enum LiteralView {
    Nil,
    True,
    False,
    String(Seq<char>),
    Number(Seq<char>),
}

/// A syntax tree as contracts speak of it.
pub enum NodeView {
    Expression(Box<NodeView>),
    Series(Box<NodeView>, Box<NodeView>),
    Equality(EqualityOperator, Box<NodeView>, Box<NodeView>),
    Comparison(ComparisonOperator, Box<NodeView>, Box<NodeView>),
    Sum(SumOperator, Box<NodeView>, Box<NodeView>),
    Product(ProductOperator, Box<NodeView>, Box<NodeView>),
    Unary(UnaryOperator, Box<NodeView>),
    Primary(LiteralView),
}

impl View for Literal {
    type V = LiteralView;

    open spec fn view(&self) -> LiteralView {
        match self {
            Literal::Nil => LiteralView::Nil,
            Literal::True => LiteralView::True,
            Literal::False => LiteralView::False,
            Literal::String(text) => LiteralView::String(text@),
            Literal::Number(text) => LiteralView::Number(text@),
        }
    }
}

impl View for Node {
    type V = NodeView;

    open spec fn view(&self) -> NodeView
        decreases self,
    {
        match self {
            Node::Expression(inner) => NodeView::Expression(Box::new((**inner).view())),
            Node::Series(left, right) => NodeView::Series(
                Box::new((**left).view()),
                Box::new((**right).view()),
            ),
            Node::Equality(operator, left, right) => NodeView::Equality(
                *operator,
                Box::new((**left).view()),
                Box::new((**right).view()),
            ),
            Node::Comparison(operator, left, right) => NodeView::Comparison(
                *operator,
                Box::new((**left).view()),
                Box::new((**right).view()),
            ),
            Node::Sum(operator, left, right) => NodeView::Sum(
                *operator,
                Box::new((**left).view()),
                Box::new((**right).view()),
            ),
            Node::Product(operator, left, right) => NodeView::Product(
                *operator,
                Box::new((**left).view()),
                Box::new((**right).view()),
            ),
            Node::Unary(operator, operand) => NodeView::Unary(
                *operator,
                Box::new((**operand).view()),
            ),
            Node::Primary(literal) => NodeView::Primary(literal@),
        }
    }
}

} // verus!
