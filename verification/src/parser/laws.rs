//! What holds of every parse: theorems on the grammar of expressions, and
//! the lemmas that they rest on.

use crate::ast::{LiteralView, NodeView};
use crate::fault::Fault;
use crate::lexical::scan_text;
use crate::lexical_laws::{theorem_number_lexeme_is_float_text, theorem_tokens_are_sound};
use crate::number::is_float_text;
use crate::parser::grammar::{
    parse_chain, parse_operand, parse_primary, parse_tier, parse_tokens, parse_unary,
    trailing_token, unary_operator, unexpected_token, Parsed, Tier,
};
use crate::token::{TokenType, TokenView};
use vstd::prelude::*;

verus! {

// Definitions.

/// Whether a token of kind `kind` is a binary operator of some tier.
pub open spec fn is_binary_operator(kind: TokenType) -> bool {
    Tier::Series.has_operator(kind) || Tier::Equality.has_operator(kind)
        || Tier::Comparison.has_operator(kind) || Tier::Sum.has_operator(kind)
        || Tier::Product.has_operator(kind)
}

/// The rank of the tier of which a token of kind `kind` is an operator, or
/// 0 where it is an operator of none.
pub open spec fn operator_rank(kind: TokenType) -> nat {
    if Tier::Series.has_operator(kind) {
        Tier::Series.rank()
    } else if Tier::Equality.has_operator(kind) {
        Tier::Equality.rank()
    } else if Tier::Comparison.has_operator(kind) {
        Tier::Comparison.rank()
    } else if Tier::Sum.has_operator(kind) {
        Tier::Sum.rank()
    } else if Tier::Product.has_operator(kind) {
        Tier::Product.rank()
    } else {
        0
    }
}

/// The literal that a token stands for by itself, if it does.
pub open spec fn literal_of(token: TokenView) -> Option<LiteralView> {
    match token.token_type {
        TokenType::Nil => Some(LiteralView::Nil),
        TokenType::True => Some(LiteralView::True),
        TokenType::False => Some(LiteralView::False),
        TokenType::String => Some(LiteralView::String(token.lexeme)),
        TokenType::Number => if is_float_text(token.lexeme) {
            Some(LiteralView::Number(token.lexeme))
        } else {
            None
        },
        _ => None,
    }
}

/// How loosely the operator at the root of a tree binds: 0 for a literal, 1
/// for a prefix operator, the rank of its tier for a binary operator, and 7
/// for an `Expression` node.
pub open spec fn node_rank(tree: NodeView) -> nat {
    match tree {
        NodeView::Primary(_) => 0,
        NodeView::Unary(_, _) => 1,
        NodeView::Product(_, _, _) => Tier::Product.rank(),
        NodeView::Sum(_, _, _) => Tier::Sum.rank(),
        NodeView::Comparison(_, _, _) => Tier::Comparison.rank(),
        NodeView::Equality(_, _, _) => Tier::Equality.rank(),
        NodeView::Series(_, _) => Tier::Series.rank(),
        NodeView::Expression(_) => 7,
    }
}

/// Whether a tree holds no `Expression` node, and no number but a
/// well-formed one.
pub open spec fn is_reduced(tree: NodeView) -> bool
    decreases tree,
{
    match tree {
        NodeView::Primary(LiteralView::Number(text)) => is_float_text(text),
        NodeView::Primary(_) => true,
        NodeView::Unary(_, operand) => is_reduced(*operand),
        NodeView::Product(_, left, right) => is_reduced(*left) && is_reduced(*right),
        NodeView::Sum(_, left, right) => is_reduced(*left) && is_reduced(*right),
        NodeView::Comparison(_, left, right) => is_reduced(*left) && is_reduced(*right),
        NodeView::Equality(_, left, right) => is_reduced(*left) && is_reduced(*right),
        NodeView::Series(left, right) => is_reduced(*left) && is_reduced(*right),
        NodeView::Expression(_) => false,
    }
}

/// Whether a tree is what operators without parentheses make: at every
/// binary node the left operand is of the node's tier or a tighter one, the
/// right operand of a tighter one; and a prefix operator applies to a prefix
/// operator or a literal.
pub open spec fn leans_left(tree: NodeView) -> bool
    decreases tree,
{
    match tree {
        NodeView::Primary(_) => true,
        NodeView::Unary(_, operand) => node_rank(*operand) <= 1 && leans_left(*operand),
        NodeView::Product(_, left, right) => node_rank(*left) <= node_rank(tree) && node_rank(
            *right,
        ) < node_rank(tree) && leans_left(*left) && leans_left(*right),
        NodeView::Sum(_, left, right) => node_rank(*left) <= node_rank(tree) && node_rank(*right)
            < node_rank(tree) && leans_left(*left) && leans_left(*right),
        NodeView::Comparison(_, left, right) => node_rank(*left) <= node_rank(tree) && node_rank(
            *right,
        ) < node_rank(tree) && leans_left(*left) && leans_left(*right),
        NodeView::Equality(_, left, right) => node_rank(*left) <= node_rank(tree) && node_rank(
            *right,
        ) < node_rank(tree) && leans_left(*left) && leans_left(*right),
        NodeView::Series(left, right) => node_rank(*left) <= node_rank(tree) && node_rank(*right)
            < node_rank(tree) && leans_left(*left) && leans_left(*right),
        NodeView::Expression(inner) => leans_left(*inner),
    }
}

/// Whether no token is an opening parenthesis.
pub open spec fn has_no_group(tokens: Seq<TokenView>) -> bool {
    forall|i: int|
        0 <= i < tokens.len() ==> (#[trigger] tokens[i]).token_type != TokenType::LeftParen
}

// Theorems.

/// Operators of one tier group from the left: three literals joined by two
/// operators of the same tier make the tree in which the first operator
/// joins the first two, and the second joins that with the third.
pub proof fn theorem_left_associative(
    tier: Tier,
    a: TokenView,
    first: TokenView,
    b: TokenView,
    second: TokenView,
    c: TokenView,
)
    requires
        literal_of(a) is Some,
        literal_of(b) is Some,
        literal_of(c) is Some,
        tier.has_operator(first.token_type),
        tier.has_operator(second.token_type),
    ensures
        parse_tokens(seq![a, first, b, second, c]) == Ok::<NodeView, Fault>(
            NodeView::Expression(
                Box::new(
                    tier.join(
                        second.token_type,
                        tier.join(
                            first.token_type,
                            NodeView::Primary(literal_of(a)->Some_0),
                            NodeView::Primary(literal_of(b)->Some_0),
                        ),
                        NodeView::Primary(literal_of(c)->Some_0),
                    ),
                ),
            ),
        ),
{
    let tokens = seq![a, first, b, second, c];
    let left = Parsed { tree: NodeView::Primary(literal_of(a)->Some_0), used: 1 };
    let middle = Parsed { tree: NodeView::Primary(literal_of(b)->Some_0), used: 1 };
    let right = Parsed { tree: NodeView::Primary(literal_of(c)->Some_0), used: 1 };
    lemma_literal_operand(tokens, 0, tier);
    lemma_literal_operand(tokens, 2, tier);
    lemma_literal_operand(tokens, 4, tier);
    let pair = Parsed { tree: tier.join(first.token_type, left.tree, middle.tree), used: 3 };
    let all = Parsed { tree: tier.join(second.token_type, pair.tree, right.tree), used: 5 };
    lemma_chain_step(tokens, tier, 0, left, middle);
    lemma_chain_step(tokens, tier, 0, pair, right);
    assert(parse_chain(tokens, tier, 0, all) == Ok::<Parsed, Fault>(all));
    assert(parse_tier(tokens, tier, 0) == Ok::<Parsed, Fault>(all));
    lemma_whole(tokens, tier);
}

/// A tighter tier binds first, on the right: where an operator of a looser
/// tier stands before one of a tighter tier, the tighter one joins the
/// literals around it, and the looser one joins the first literal with that.
pub proof fn theorem_tighter_on_the_right(
    loose: Tier,
    tight: Tier,
    a: TokenView,
    first: TokenView,
    b: TokenView,
    second: TokenView,
    c: TokenView,
)
    requires
        literal_of(a) is Some,
        literal_of(b) is Some,
        literal_of(c) is Some,
        tight.rank() < loose.rank(),
        loose.has_operator(first.token_type),
        tight.has_operator(second.token_type),
    ensures
        parse_tokens(seq![a, first, b, second, c]) == Ok::<NodeView, Fault>(
            NodeView::Expression(
                Box::new(
                    loose.join(
                        first.token_type,
                        NodeView::Primary(literal_of(a)->Some_0),
                        tight.join(
                            second.token_type,
                            NodeView::Primary(literal_of(b)->Some_0),
                            NodeView::Primary(literal_of(c)->Some_0),
                        ),
                    ),
                ),
            ),
        ),
{
    let tokens = seq![a, first, b, second, c];
    let left = Parsed { tree: NodeView::Primary(literal_of(a)->Some_0), used: 1 };
    let middle = Parsed { tree: NodeView::Primary(literal_of(b)->Some_0), used: 1 };
    let right = Parsed { tree: NodeView::Primary(literal_of(c)->Some_0), used: 1 };
    lemma_literal_operand(tokens, 0, loose);
    lemma_literal_operand(tokens, 2, tight);
    lemma_literal_operand(tokens, 4, tight);
    let pair = Parsed { tree: tight.join(second.token_type, middle.tree, right.tree), used: 3 };
    lemma_chain_step(tokens, tight, 2, middle, right);
    assert(parse_chain(tokens, tight, 2, pair) == Ok::<Parsed, Fault>(pair));
    assert(parse_tier(tokens, tight, 2) == Ok::<Parsed, Fault>(pair));
    lemma_operand(tokens, 2, tight, loose);
    let all = Parsed { tree: loose.join(first.token_type, left.tree, pair.tree), used: 5 };
    lemma_chain_step(tokens, loose, 0, left, pair);
    assert(parse_chain(tokens, loose, 0, all) == Ok::<Parsed, Fault>(all));
    assert(parse_tier(tokens, loose, 0) == Ok::<Parsed, Fault>(all));
    lemma_whole(tokens, loose);
}

/// A tighter tier binds first, on the left: where an operator of a tighter
/// tier stands before one of a looser tier, the tighter one joins the
/// literals around it, and the looser one joins that with the last literal.
pub proof fn theorem_tighter_on_the_left(
    loose: Tier,
    tight: Tier,
    a: TokenView,
    first: TokenView,
    b: TokenView,
    second: TokenView,
    c: TokenView,
)
    requires
        literal_of(a) is Some,
        literal_of(b) is Some,
        literal_of(c) is Some,
        tight.rank() < loose.rank(),
        tight.has_operator(first.token_type),
        loose.has_operator(second.token_type),
    ensures
        parse_tokens(seq![a, first, b, second, c]) == Ok::<NodeView, Fault>(
            NodeView::Expression(
                Box::new(
                    loose.join(
                        second.token_type,
                        tight.join(
                            first.token_type,
                            NodeView::Primary(literal_of(a)->Some_0),
                            NodeView::Primary(literal_of(b)->Some_0),
                        ),
                        NodeView::Primary(literal_of(c)->Some_0),
                    ),
                ),
            ),
        ),
{
    let tokens = seq![a, first, b, second, c];
    let left = Parsed { tree: NodeView::Primary(literal_of(a)->Some_0), used: 1 };
    let middle = Parsed { tree: NodeView::Primary(literal_of(b)->Some_0), used: 1 };
    let right = Parsed { tree: NodeView::Primary(literal_of(c)->Some_0), used: 1 };
    lemma_literal_operand(tokens, 0, tight);
    lemma_literal_operand(tokens, 2, tight);
    lemma_literal_operand(tokens, 4, loose);
    let pair = Parsed { tree: tight.join(first.token_type, left.tree, middle.tree), used: 3 };
    lemma_chain_step(tokens, tight, 0, left, middle);
    assert(parse_chain(tokens, tight, 0, pair) == Ok::<Parsed, Fault>(pair));
    assert(parse_tier(tokens, tight, 0) == Ok::<Parsed, Fault>(pair));
    lemma_operand(tokens, 0, tight, loose);
    let all = Parsed { tree: loose.join(second.token_type, pair.tree, right.tree), used: 5 };
    lemma_chain_step(tokens, loose, 0, pair, right);
    assert(parse_chain(tokens, loose, 0, all) == Ok::<Parsed, Fault>(all));
    assert(parse_tier(tokens, loose, 0) == Ok::<Parsed, Fault>(all));
    lemma_whole(tokens, loose);
}

/// Precedence and associativity, for chains of any length: the tree of
/// tokens without parentheses leans left. Every right operand is of a
/// tighter tier than its operator, and every left operand of the same tier
/// or a tighter one.
pub proof fn theorem_tree_leans_left(tokens: Seq<TokenView>)
    requires
        has_no_group(tokens),
        parse_tokens(tokens) is Ok,
    ensures
        leans_left(parse_tokens(tokens)->Ok_0),
{
    lemma_tier_shape(tokens, Tier::Series, 0);
}

/// Prefix operators nest to the right: two of them before a literal make
/// the tree in which the first applies to what the second makes of the
/// literal.
pub proof fn theorem_prefix_operators_nest(first: TokenView, second: TokenView, a: TokenView)
    requires
        unary_operator(first.token_type) is Some,
        unary_operator(second.token_type) is Some,
        literal_of(a) is Some,
    ensures
        parse_tokens(seq![first, second, a]) == Ok::<NodeView, Fault>(
            NodeView::Expression(
                Box::new(
                    NodeView::Unary(
                        unary_operator(first.token_type)->Some_0,
                        Box::new(
                            NodeView::Unary(
                                unary_operator(second.token_type)->Some_0,
                                Box::new(NodeView::Primary(literal_of(a)->Some_0)),
                            ),
                        ),
                    ),
                ),
            ),
        ),
{
    let tokens = seq![first, second, a];
    lemma_literal(tokens, 2);
    assert(parse_unary(tokens, 1) is Ok);
    assert(parse_unary(tokens, 0) is Ok);
    assert(parse_tier(tokens, Tier::Product, 0) == parse_unary(tokens, 0));
    lemma_whole(tokens, Tier::Product);
}

/// Parentheses are transparent: tokens that make an expression make the
/// same tree when they stand between an opening and a closing parenthesis.
pub proof fn theorem_grouping(open: TokenView, inner: Seq<TokenView>, close: TokenView)
    requires
        open.token_type == TokenType::LeftParen,
        close.token_type == TokenType::RightParen,
        parse_tokens(inner) is Ok,
    ensures
        parse_tokens(seq![open] + inner + seq![close]) == parse_tokens(inner),
{
    let whole = seq![open] + inner + seq![close];
    let series = parse_tier(inner, Tier::Series, 0)->Ok_0;
    lemma_tier_bounds(inner, Tier::Series, 0);
    lemma_tier_within(seq![open], inner, seq![close], Tier::Series, 0);
    assert(series.used == inner.len());
    assert(whole[0] == open);
    assert(whole[(1 + series.used) as int] == close);
    assert(parse_primary(whole, 0) == Ok::<Parsed, Fault>(
        Parsed { tree: series.tree, used: series.used + 2 },
    ));
    assert(parse_unary(whole, 0) == parse_primary(whole, 0));
    lemma_reaches(whole, 0, Tier::Series);
}

/// A token that follows a complete expression is a fault on its own line: a
/// literal and then a token that is no binary operator fail at that token,
/// whatever comes after.
pub proof fn theorem_trailing_token(first: TokenView, second: TokenView, rest: Seq<TokenView>)
    requires
        literal_of(first) is Some,
        !is_binary_operator(second.token_type),
    ensures
        parse_tokens(seq![first, second] + rest) == Err::<NodeView, Fault>(
            trailing_token(second),
        ),
{
    let whole = seq![first, second] + rest;
    assert(whole[0] == first);
    assert(whole[1] == second);
    assert(parse_primary(whole, 0) == Ok::<Parsed, Fault>(
        Parsed { tree: NodeView::Primary(literal_of(first)->Some_0), used: 1 },
    ));
    assert(parse_unary(whole, 0) == parse_primary(whole, 0));
    lemma_reaches(whole, 0, Tier::Series);
}

/// A parenthesis that is not closed is a fault on the line of the last
/// token: tokens that make an expression, after an opening parenthesis and
/// with nothing behind them, fail at their last token.
pub proof fn theorem_unclosed_group(open: TokenView, inner: Seq<TokenView>)
    requires
        open.token_type == TokenType::LeftParen,
        parse_tokens(inner) is Ok,
    ensures
        inner.len() > 0,
        parse_tokens(seq![open] + inner) == Err::<NodeView, Fault>(unexpected_token(inner.last())),
{
    let whole = seq![open] + inner;
    assert(whole =~= seq![open] + inner + Seq::<TokenView>::empty());
    let series = parse_tier(inner, Tier::Series, 0)->Ok_0;
    lemma_tier_bounds(inner, Tier::Series, 0);
    lemma_tier_within(seq![open], inner, Seq::<TokenView>::empty(), Tier::Series, 0);
    assert(series.used == inner.len());
    assert(whole[0] == open);
    assert(whole[series.used as int] == inner.last());
    assert(parse_primary(whole, 0) == Err::<Parsed, Fault>(unexpected_token(inner.last())));
    assert(parse_unary(whole, 0) == parse_primary(whole, 0));
    lemma_fault_rises(whole, 0, Tier::Series);
}

/// The tree of a token sequence is one `Expression` node over a tree that
/// holds no `Expression` node and no malformed number.
pub proof fn theorem_tree_is_reduced(tokens: Seq<TokenView>)
    requires
        parse_tokens(tokens) is Ok,
    ensures
        parse_tokens(tokens)->Ok_0 is Expression,
        is_reduced(*parse_tokens(tokens)->Ok_0->Expression_0),
{
    lemma_tier_shape(tokens, Tier::Series, 0);
}

/// The parser takes every number that the scanner yields: a number token of
/// a scan stands for a literal by itself.
pub proof fn theorem_scanned_numbers_are_literals(s: Seq<char>)
    requires
        scan_text(s) is Ok,
    ensures
        forall|i: int|
            0 <= i < scan_text(s)->Ok_0.len() && (#[trigger] scan_text(s)->Ok_0[i]).token_type
                == TokenType::Number ==> literal_of(scan_text(s)->Ok_0[i]) is Some,
{
    theorem_tokens_are_sound(s);
    assert forall|i: int|
        0 <= i < scan_text(s)->Ok_0.len() && (#[trigger] scan_text(s)->Ok_0[i]).token_type
            == TokenType::Number implies literal_of(scan_text(s)->Ok_0[i]) is Some by {
        theorem_number_lexeme_is_float_text(scan_text(s)->Ok_0[i].lexeme);
    }
}

// An expression spans one token or more and ends within the tokens.

/// A primary expression spans at least one token and ends within the tokens.
pub proof fn lemma_primary_bounds(tokens: Seq<TokenView>, pos: nat)
    requires
        parse_primary(tokens, pos) is Ok,
    ensures
        parse_primary(tokens, pos)->Ok_0.used >= 1,
        pos + parse_primary(tokens, pos)->Ok_0.used <= tokens.len(),
    decreases tokens.len() - pos, 0nat, 0nat,
{
    if pos < tokens.len() && tokens[pos as int].token_type == TokenType::LeftParen {
        lemma_tier_bounds(tokens, Tier::Series, pos + 1);
    }
}

/// A unary expression spans at least one token and ends within the tokens.
pub proof fn lemma_unary_bounds(tokens: Seq<TokenView>, pos: nat)
    requires
        parse_unary(tokens, pos) is Ok,
    ensures
        parse_unary(tokens, pos)->Ok_0.used >= 1,
        pos + parse_unary(tokens, pos)->Ok_0.used <= tokens.len(),
    decreases tokens.len() - pos, 1nat, 0nat,
{
    if pos < tokens.len() && unary_operator(tokens[pos as int].token_type) is Some {
        lemma_unary_bounds(tokens, pos + 1);
    } else {
        lemma_primary_bounds(tokens, pos);
    }
}

/// An operand spans at least one token and ends within the tokens.
pub proof fn lemma_operand_bounds(tokens: Seq<TokenView>, tier: Tier, pos: nat)
    requires
        parse_operand(tokens, tier, pos) is Ok,
    ensures
        parse_operand(tokens, tier, pos)->Ok_0.used >= 1,
        pos + parse_operand(tokens, tier, pos)->Ok_0.used <= tokens.len(),
    decreases tokens.len() - pos, tier.rank(), 1nat,
{
    match tier {
        Tier::Series => lemma_tier_bounds(tokens, Tier::Equality, pos),
        Tier::Equality => lemma_tier_bounds(tokens, Tier::Comparison, pos),
        Tier::Comparison => lemma_tier_bounds(tokens, Tier::Sum, pos),
        Tier::Sum => lemma_tier_bounds(tokens, Tier::Product, pos),
        Tier::Product => lemma_unary_bounds(tokens, pos),
    }
}

/// A chain spans what was read of it or more, and ends within the tokens.
pub proof fn lemma_chain_bounds(tokens: Seq<TokenView>, tier: Tier, pos: nat, left: Parsed)
    requires
        pos + left.used <= tokens.len(),
        parse_chain(tokens, tier, pos, left) is Ok,
    ensures
        parse_chain(tokens, tier, pos, left)->Ok_0.used >= left.used,
        pos + parse_chain(tokens, tier, pos, left)->Ok_0.used <= tokens.len(),
    decreases tokens.len() - (pos + left.used), tier.rank(), 0nat,
{
    let at = pos + left.used;
    if at < tokens.len() && tier.has_operator(tokens[at as int].token_type) {
        lemma_operand_bounds(tokens, tier, (at + 1) as nat);
        let right = parse_operand(tokens, tier, (at + 1) as nat)->Ok_0;
        lemma_chain_bounds(
            tokens,
            tier,
            pos,
            Parsed {
                tree: tier.join(tokens[at as int].token_type, left.tree, right.tree),
                used: left.used + 1 + right.used,
            },
        );
    }
}

/// An expression of any tier spans at least one token and ends within the
/// tokens.
pub proof fn lemma_tier_bounds(tokens: Seq<TokenView>, tier: Tier, pos: nat)
    requires
        parse_tier(tokens, tier, pos) is Ok,
    ensures
        parse_tier(tokens, tier, pos)->Ok_0.used >= 1,
        pos + parse_tier(tokens, tier, pos)->Ok_0.used <= tokens.len(),
    decreases tokens.len() - pos, tier.rank(), 2nat,
{
    lemma_operand_bounds(tokens, tier, pos);
    lemma_chain_bounds(tokens, tier, pos, parse_operand(tokens, tier, pos)->Ok_0);
}

// An expression stands unchanged among further tokens.

/// Whether an expression that ends where `inner` ends still ends there when
/// `after` follows: `after` is empty or begins with no binary operator.
pub open spec fn closes(after: Seq<TokenView>) -> bool {
    after.len() == 0 || !is_binary_operator(after[0].token_type)
}

/// A primary expression that stands among tokens stands unchanged among the
/// same tokens with others before and after them.
pub proof fn lemma_primary_within(
    before: Seq<TokenView>,
    inner: Seq<TokenView>,
    after: Seq<TokenView>,
    pos: nat,
)
    requires
        closes(after),
        parse_primary(inner, pos) is Ok,
    ensures
        parse_primary(before + inner + after, before.len() + pos) == parse_primary(inner, pos),
    decreases inner.len() - pos, 0nat, 0nat,
{
    let whole = before + inner + after;
    let shift = before.len();
    assert(forall|i: int| 0 <= i < inner.len() ==> whole[shift + i] == inner[i]);
    if inner[pos as int].token_type == TokenType::LeftParen {
        lemma_tier_bounds(inner, Tier::Series, pos + 1);
        lemma_tier_within(before, inner, after, Tier::Series, pos + 1);
        let group = parse_tier(inner, Tier::Series, pos + 1)->Ok_0;
        assert(shift + pos + 1 + group.used == shift + (pos + 1 + group.used));
    }
}

/// A unary expression that stands among tokens stands unchanged among the
/// same tokens with others before and after them.
pub proof fn lemma_unary_within(
    before: Seq<TokenView>,
    inner: Seq<TokenView>,
    after: Seq<TokenView>,
    pos: nat,
)
    requires
        closes(after),
        parse_unary(inner, pos) is Ok,
    ensures
        parse_unary(before + inner + after, before.len() + pos) == parse_unary(inner, pos),
    decreases inner.len() - pos, 1nat, 0nat,
{
    let whole = before + inner + after;
    let shift = before.len();
    assert(forall|i: int| 0 <= i < inner.len() ==> whole[shift + i] == inner[i]);
    if pos < inner.len() && unary_operator(inner[pos as int].token_type) is Some {
        lemma_unary_within(before, inner, after, pos + 1);
        assert(shift + pos + 1 == shift + (pos + 1));
    } else {
        lemma_primary_bounds(inner, pos);
        lemma_primary_within(before, inner, after, pos);
    }
}

/// An operand that stands among tokens stands unchanged among the same
/// tokens with others before and after them.
pub proof fn lemma_operand_within(
    before: Seq<TokenView>,
    inner: Seq<TokenView>,
    after: Seq<TokenView>,
    tier: Tier,
    pos: nat,
)
    requires
        closes(after),
        parse_operand(inner, tier, pos) is Ok,
    ensures
        parse_operand(before + inner + after, tier, before.len() + pos) == parse_operand(
            inner,
            tier,
            pos,
        ),
    decreases inner.len() - pos, tier.rank(), 1nat,
{
    match tier {
        Tier::Series => lemma_tier_within(before, inner, after, Tier::Equality, pos),
        Tier::Equality => lemma_tier_within(before, inner, after, Tier::Comparison, pos),
        Tier::Comparison => lemma_tier_within(before, inner, after, Tier::Sum, pos),
        Tier::Sum => lemma_tier_within(before, inner, after, Tier::Product, pos),
        Tier::Product => lemma_unary_within(before, inner, after, pos),
    }
}

/// A chain that stands among tokens stands unchanged among the same tokens
/// with others before and after them.
pub proof fn lemma_chain_within(
    before: Seq<TokenView>,
    inner: Seq<TokenView>,
    after: Seq<TokenView>,
    tier: Tier,
    pos: nat,
    left: Parsed,
)
    requires
        closes(after),
        pos + left.used <= inner.len(),
        parse_chain(inner, tier, pos, left) is Ok,
    ensures
        parse_chain(before + inner + after, tier, before.len() + pos, left) == parse_chain(
            inner,
            tier,
            pos,
            left,
        ),
    decreases inner.len() - (pos + left.used), tier.rank(), 0nat,
{
    let whole = before + inner + after;
    let shift = before.len();
    let at = pos + left.used;
    assert(forall|i: int| 0 <= i < inner.len() ==> whole[shift + i] == inner[i]);
    assert(shift + pos + left.used == shift + at);
    if at < inner.len() && tier.has_operator(inner[at as int].token_type) {
        lemma_operand_bounds(inner, tier, (at + 1) as nat);
        lemma_operand_within(before, inner, after, tier, (at + 1) as nat);
        assert(shift + at + 1 == shift + (at + 1));
        let right = parse_operand(inner, tier, (at + 1) as nat)->Ok_0;
        lemma_chain_within(
            before,
            inner,
            after,
            tier,
            pos,
            Parsed {
                tree: tier.join(inner[at as int].token_type, left.tree, right.tree),
                used: left.used + 1 + right.used,
            },
        );
    } else if at == inner.len() && after.len() > 0 {
        assert(whole[(shift + at) as int] == after[0]);
    }
}

/// An expression of any tier that stands among tokens stands unchanged among
/// the same tokens with others before and after them, where what comes after
/// does not continue it.
pub proof fn lemma_tier_within(
    before: Seq<TokenView>,
    inner: Seq<TokenView>,
    after: Seq<TokenView>,
    tier: Tier,
    pos: nat,
)
    requires
        closes(after),
        parse_tier(inner, tier, pos) is Ok,
    ensures
        parse_tier(before + inner + after, tier, before.len() + pos) == parse_tier(
            inner,
            tier,
            pos,
        ),
    decreases inner.len() - pos, tier.rank(), 2nat,
{
    lemma_operand_bounds(inner, tier, pos);
    lemma_operand_within(before, inner, after, tier, pos);
    lemma_chain_within(before, inner, after, tier, pos, parse_operand(inner, tier, pos)->Ok_0);
}

// An expression that stops is the expression of every looser tier.

/// Whether an expression of tier `tier` that ends before `pos` ends there
/// for good: the tokens end at `pos`, or the token there is no operator of
/// `tier` or of a tier that binds tighter.
pub open spec fn stops(tokens: Seq<TokenView>, pos: nat, tier: Tier) -> bool {
    pos >= tokens.len() || operator_rank(tokens[pos as int].token_type) == 0 || operator_rank(
        tokens[pos as int].token_type,
    ) > tier.rank()
}

/// Whether an operand of tier `tier` that ends before `pos` ends there for
/// good: the tokens end at `pos`, or the token there is no operator of a
/// tier that binds tighter than `tier`.
pub open spec fn gives_way(tokens: Seq<TokenView>, pos: nat, tier: Tier) -> bool {
    pos >= tokens.len() || operator_rank(tokens[pos as int].token_type) == 0 || operator_rank(
        tokens[pos as int].token_type,
    ) >= tier.rank()
}

/// An expression of a tier, with no operator behind it that a tier up to
/// `to` would take, is by itself the expression of tier `to`.
pub proof fn lemma_rises(tokens: Seq<TokenView>, pos: nat, from: Tier, to: Tier)
    requires
        from.rank() <= to.rank(),
        parse_tier(tokens, from, pos) is Ok,
        stops(tokens, pos + parse_tier(tokens, from, pos)->Ok_0.used, to),
    ensures
        parse_tier(tokens, to, pos) == parse_tier(tokens, from, pos),
    decreases to.rank(),
{
    if from.rank() < to.rank() {
        match to {
            Tier::Series => lemma_rises(tokens, pos, from, Tier::Equality),
            Tier::Equality => lemma_rises(tokens, pos, from, Tier::Comparison),
            Tier::Comparison => lemma_rises(tokens, pos, from, Tier::Sum),
            Tier::Sum => lemma_rises(tokens, pos, from, Tier::Product),
            Tier::Product => {},
        }
    }
}

/// A unary expression, with no operator behind it that a tier up to `tier`
/// would take, is by itself the expression of tier `tier`.
pub proof fn lemma_reaches(tokens: Seq<TokenView>, pos: nat, tier: Tier)
    requires
        parse_unary(tokens, pos) is Ok,
        stops(tokens, pos + parse_unary(tokens, pos)->Ok_0.used, tier),
    ensures
        parse_tier(tokens, tier, pos) == parse_unary(tokens, pos),
{
    assert(parse_tier(tokens, Tier::Product, pos) == parse_unary(tokens, pos));
    lemma_rises(tokens, pos, Tier::Product, tier);
}

/// A fault in a unary expression is the fault of the expression of every
/// tier that starts where it starts.
pub proof fn lemma_fault_rises(tokens: Seq<TokenView>, pos: nat, tier: Tier)
    requires
        parse_unary(tokens, pos) is Err,
    ensures
        parse_tier(tokens, tier, pos) == parse_unary(tokens, pos),
    decreases tier.rank(),
{
    match tier {
        Tier::Series => lemma_fault_rises(tokens, pos, Tier::Equality),
        Tier::Equality => lemma_fault_rises(tokens, pos, Tier::Comparison),
        Tier::Comparison => lemma_fault_rises(tokens, pos, Tier::Sum),
        Tier::Sum => lemma_fault_rises(tokens, pos, Tier::Product),
        Tier::Product => {},
    }
}

/// The operand of a tier is the expression of the next tighter tier, so
/// that an expression of a tighter tier that stops is the operand.
pub proof fn lemma_operand(tokens: Seq<TokenView>, pos: nat, from: Tier, tier: Tier)
    requires
        from.rank() < tier.rank(),
        parse_tier(tokens, from, pos) is Ok,
        gives_way(tokens, pos + parse_tier(tokens, from, pos)->Ok_0.used, tier),
    ensures
        parse_operand(tokens, tier, pos) == parse_tier(tokens, from, pos),
{
    match tier {
        Tier::Series => lemma_rises(tokens, pos, from, Tier::Equality),
        Tier::Equality => lemma_rises(tokens, pos, from, Tier::Comparison),
        Tier::Comparison => lemma_rises(tokens, pos, from, Tier::Sum),
        Tier::Sum => lemma_rises(tokens, pos, from, Tier::Product),
        Tier::Product => {},
    }
}

/// A literal token is the unary expression at its position.
pub proof fn lemma_literal(tokens: Seq<TokenView>, pos: nat)
    requires
        pos < tokens.len(),
        literal_of(tokens[pos as int]) is Some,
    ensures
        parse_unary(tokens, pos) == Ok::<Parsed, Fault>(
            Parsed { tree: NodeView::Primary(literal_of(tokens[pos as int])->Some_0), used: 1 },
        ),
{
    assert(parse_primary(tokens, pos) == Ok::<Parsed, Fault>(
        Parsed { tree: NodeView::Primary(literal_of(tokens[pos as int])->Some_0), used: 1 },
    ));
}

/// A literal with an operator of tier `tier` or a looser one behind it, or
/// with nothing behind it, is an operand of tier `tier`.
pub proof fn lemma_literal_operand(tokens: Seq<TokenView>, pos: nat, tier: Tier)
    requires
        pos < tokens.len(),
        literal_of(tokens[pos as int]) is Some,
        gives_way(tokens, pos + 1, tier),
    ensures
        parse_operand(tokens, tier, pos) == Ok::<Parsed, Fault>(
            Parsed { tree: NodeView::Primary(literal_of(tokens[pos as int])->Some_0), used: 1 },
        ),
{
    lemma_literal(tokens, pos);
    if tier.rank() > Tier::Product.rank() {
        assert(parse_tier(tokens, Tier::Product, pos) == parse_unary(tokens, pos));
        lemma_operand(tokens, pos, Tier::Product, tier);
    }
}

/// One step of a chain: an operator of the tier behind what is read joins it
/// with the operand that follows.
pub proof fn lemma_chain_step(
    tokens: Seq<TokenView>,
    tier: Tier,
    pos: nat,
    left: Parsed,
    right: Parsed,
)
    requires
        pos + left.used < tokens.len(),
        tier.has_operator(tokens[(pos + left.used) as int].token_type),
        parse_operand(tokens, tier, (pos + left.used + 1) as nat) == Ok::<Parsed, Fault>(right),
    ensures
        parse_chain(tokens, tier, pos, left) == parse_chain(
            tokens,
            tier,
            pos,
            Parsed {
                tree: tier.join(
                    tokens[(pos + left.used) as int].token_type,
                    left.tree,
                    right.tree,
                ),
                used: left.used + 1 + right.used,
            },
        ),
{
}

/// The tree of a whole token sequence is the tree of an expression of any
/// tier that spans all of it, in an `Expression` node.
pub proof fn lemma_whole(tokens: Seq<TokenView>, tier: Tier)
    requires
        parse_tier(tokens, tier, 0) is Ok,
        parse_tier(tokens, tier, 0)->Ok_0.used >= tokens.len(),
    ensures
        parse_tokens(tokens) == Ok::<NodeView, Fault>(
            NodeView::Expression(Box::new(parse_tier(tokens, tier, 0)->Ok_0.tree)),
        ),
{
    lemma_rises(tokens, 0, tier, Tier::Series);
}

// The shape of a tree.

/// The tree of a primary expression is reduced; without parentheses it is a
/// literal.
pub proof fn lemma_primary_shape(tokens: Seq<TokenView>, pos: nat)
    requires
        parse_primary(tokens, pos) is Ok,
    ensures
        is_reduced(parse_primary(tokens, pos)->Ok_0.tree),
        has_no_group(tokens) ==> node_rank(parse_primary(tokens, pos)->Ok_0.tree) == 0
            && leans_left(parse_primary(tokens, pos)->Ok_0.tree),
    decreases tokens.len() - pos, 0nat, 0nat,
{
    if pos < tokens.len() && tokens[pos as int].token_type == TokenType::LeftParen {
        lemma_tier_shape(tokens, Tier::Series, pos + 1);
    }
}

/// The tree of a unary expression is reduced; without parentheses it is a
/// literal under prefix operators.
pub proof fn lemma_unary_shape(tokens: Seq<TokenView>, pos: nat)
    requires
        parse_unary(tokens, pos) is Ok,
    ensures
        is_reduced(parse_unary(tokens, pos)->Ok_0.tree),
        has_no_group(tokens) ==> node_rank(parse_unary(tokens, pos)->Ok_0.tree) <= 1
            && leans_left(parse_unary(tokens, pos)->Ok_0.tree),
    decreases tokens.len() - pos, 1nat, 0nat,
{
    if pos < tokens.len() && unary_operator(tokens[pos as int].token_type) is Some {
        lemma_unary_shape(tokens, pos + 1);
    } else {
        lemma_primary_shape(tokens, pos);
    }
}

/// The tree of an operand is reduced; without parentheses it leans left and
/// is of a tighter tier than the one that it is an operand of.
pub proof fn lemma_operand_shape(tokens: Seq<TokenView>, tier: Tier, pos: nat)
    requires
        parse_operand(tokens, tier, pos) is Ok,
    ensures
        is_reduced(parse_operand(tokens, tier, pos)->Ok_0.tree),
        has_no_group(tokens) ==> node_rank(parse_operand(tokens, tier, pos)->Ok_0.tree)
            < tier.rank() && leans_left(parse_operand(tokens, tier, pos)->Ok_0.tree),
    decreases tokens.len() - pos, tier.rank(), 1nat,
{
    match tier {
        Tier::Series => lemma_tier_shape(tokens, Tier::Equality, pos),
        Tier::Equality => lemma_tier_shape(tokens, Tier::Comparison, pos),
        Tier::Comparison => lemma_tier_shape(tokens, Tier::Sum, pos),
        Tier::Sum => lemma_tier_shape(tokens, Tier::Product, pos),
        Tier::Product => lemma_unary_shape(tokens, pos),
    }
}

/// The tree of a chain is reduced where what was read of it is; without
/// parentheses it leans left and is of the chain's tier or a tighter one
/// where what was read of it is.
pub proof fn lemma_chain_shape(tokens: Seq<TokenView>, tier: Tier, pos: nat, left: Parsed)
    requires
        pos + left.used <= tokens.len(),
        parse_chain(tokens, tier, pos, left) is Ok,
        is_reduced(left.tree),
    ensures
        is_reduced(parse_chain(tokens, tier, pos, left)->Ok_0.tree),
        has_no_group(tokens) && node_rank(left.tree) <= tier.rank() && leans_left(left.tree)
            ==> node_rank(parse_chain(tokens, tier, pos, left)->Ok_0.tree) <= tier.rank()
            && leans_left(parse_chain(tokens, tier, pos, left)->Ok_0.tree),
    decreases tokens.len() - (pos + left.used), tier.rank(), 0nat,
{
    let at = pos + left.used;
    if at < tokens.len() && tier.has_operator(tokens[at as int].token_type) {
        lemma_operand_bounds(tokens, tier, (at + 1) as nat);
        lemma_operand_shape(tokens, tier, (at + 1) as nat);
        let right = parse_operand(tokens, tier, (at + 1) as nat)->Ok_0;
        lemma_chain_shape(
            tokens,
            tier,
            pos,
            Parsed {
                tree: tier.join(tokens[at as int].token_type, left.tree, right.tree),
                used: left.used + 1 + right.used,
            },
        );
    }
}

/// The tree of an expression of any tier is reduced; without parentheses it
/// leans left and is of the tier or a tighter one.
pub proof fn lemma_tier_shape(tokens: Seq<TokenView>, tier: Tier, pos: nat)
    requires
        parse_tier(tokens, tier, pos) is Ok,
    ensures
        is_reduced(parse_tier(tokens, tier, pos)->Ok_0.tree),
        has_no_group(tokens) ==> node_rank(parse_tier(tokens, tier, pos)->Ok_0.tree)
            <= tier.rank() && leans_left(parse_tier(tokens, tier, pos)->Ok_0.tree),
    decreases tokens.len() - pos, tier.rank(), 2nat,
{
    lemma_operand_bounds(tokens, tier, pos);
    lemma_operand_shape(tokens, tier, pos);
    lemma_chain_shape(tokens, tier, pos, parse_operand(tokens, tier, pos)->Ok_0);
}

} // verus!
