//! The grammar of arithmetic as it is commonly written, level by level,
//! and the proof that precedence climbing reads it in the same way.
//!
//! ```text
//! sum     = product { ("+" | "-") product }
//! product = unary { ("*" | "/") unary }
//! unary   = "-" unary | primary
//! primary = integer | "(" sum ")"
//! ```
//!
//! The operators of a level are folded from left to right.

use vstd::prelude::*;
use crate::parser::grammar::{
    kind_at,
    parse_expression,
    parse_infix_loop,
    parse_prefix,
    punctuator_at,
    token_at,
    ParseErrorView,
};
use crate::parser::node::Expr;
use crate::text::numeral_value;
use crate::token::{precedence_of, Punctuator, TokenKind, TokenView, LOWEST, PREFIX, PRODUCT, SUM};

verus! {

/// Whether an operator is one of `+ - * /`.
pub open spec fn is_arithmetic_operator(operator: TokenKind) -> bool {
    is_sum_operator(operator) || is_product_operator(operator)
}

/// Whether an operator is `+` or `-`.
pub open spec fn is_sum_operator(operator: TokenKind) -> bool {
    operator == TokenKind::Punctuator(Punctuator::Add) || operator == TokenKind::Punctuator(
        Punctuator::Sub,
    )
}

/// Whether an operator is `*` or `/`.
pub open spec fn is_product_operator(operator: TokenKind) -> bool {
    operator == TokenKind::Punctuator(Punctuator::Mul) || operator == TokenKind::Punctuator(
        Punctuator::Div,
    )
}

/// Whether an expression is built from integers with `+ - * /` and the
/// unary `-` alone.
pub open spec fn is_arithmetic(e: Expr) -> bool
    decreases e,
{
    match e {
        Expr::Integer(_) => true,
        Expr::Prefix { operator, right } => operator == TokenKind::Punctuator(Punctuator::Sub)
            && is_arithmetic(*right),
        Expr::Infix { operator, left, right } => is_arithmetic_operator(operator) && is_arithmetic(
            *left,
        ) && is_arithmetic(*right),
        _ => false,
    }
}

/// What a level of the grammar yields: a tree and the position behind it,
/// or nothing where the tokens do not fit.
pub type Derived = Option<(Expr, nat)>;

/// `primary = integer | "(" sum ")"`.
pub open spec fn primary(ts: Seq<TokenView>, pos: nat) -> Derived
    decreases ts.len() - pos, 0nat,
{
    let token = token_at(ts, pos);
    if token.kind == TokenKind::Integer {
        match numeral_value(token.literal) {
            Some(value) => Some((Expr::Integer(value as i64), pos + 1)),
            None => None,
        }
    } else if punctuator_at(ts, pos, Punctuator::OpenParen) {
        match sum(ts, pos + 1) {
            Some((inner, next)) => if punctuator_at(ts, next, Punctuator::CloseParen) {
                Some((inner, next + 1))
            } else {
                None
            },
            None => None,
        }
    } else {
        None
    }
}

/// `unary = "-" unary | primary`.
pub open spec fn unary(ts: Seq<TokenView>, pos: nat) -> Derived
    decreases ts.len() - pos, 1nat,
{
    if punctuator_at(ts, pos, Punctuator::Sub) {
        match unary(ts, pos + 1) {
            Some((right, next)) => Some(
                (
                    Expr::Prefix {
                        operator: TokenKind::Punctuator(Punctuator::Sub),
                        right: Box::new(right),
                    },
                    next,
                ),
            ),
            None => None,
        }
    } else {
        primary(ts, pos)
    }
}

/// `{ ("*" | "/") unary }` behind the operand `left`, folded to the left.
pub open spec fn product_rest(ts: Seq<TokenView>, pos: nat, left: Expr) -> Derived
    decreases ts.len() - pos, 0nat,
{
    let operator = kind_at(ts, pos);
    if is_product_operator(operator) {
        match unary(ts, pos + 1) {
            Some((right, next)) => if pos < next <= ts.len() {
                product_rest(
                    ts,
                    next,
                    Expr::Infix { operator, left: Box::new(left), right: Box::new(right) },
                )
            } else {
                None
            },
            None => None,
        }
    } else {
        Some((left, pos))
    }
}

/// `product = unary { ("*" | "/") unary }`.
pub open spec fn product(ts: Seq<TokenView>, pos: nat) -> Derived
    decreases ts.len() - pos, 2nat,
{
    match unary(ts, pos) {
        Some((left, next)) => if pos < next <= ts.len() {
            product_rest(ts, next, left)
        } else {
            None
        },
        None => None,
    }
}

/// `{ ("+" | "-") product }` behind the operand `left`, folded to the left.
pub open spec fn sum_rest(ts: Seq<TokenView>, pos: nat, left: Expr) -> Derived
    decreases ts.len() - pos, 0nat,
{
    let operator = kind_at(ts, pos);
    if is_sum_operator(operator) {
        match product(ts, pos + 1) {
            Some((right, next)) => if pos < next <= ts.len() {
                sum_rest(
                    ts,
                    next,
                    Expr::Infix { operator, left: Box::new(left), right: Box::new(right) },
                )
            } else {
                None
            },
            None => None,
        }
    } else {
        Some((left, pos))
    }
}

/// `sum = product { ("+" | "-") product }`.
pub open spec fn sum(ts: Seq<TokenView>, pos: nat) -> Derived
    decreases ts.len() - pos, 3nat,
{
    match product(ts, pos) {
        Some((left, next)) => if pos < next <= ts.len() {
            sum_rest(ts, next, left)
        } else {
            None
        },
        None => None,
    }
}

/// The opening parenthesis.
pub open spec fn open_paren() -> TokenKind {
    TokenKind::Punctuator(Punctuator::OpenParen)
}

/// A product ends before a token that is neither `*` nor `/`.
pub proof fn lemma_product_rest_ends(ts: Seq<TokenView>, pos: nat, left: Expr)
    requires
        product_rest(ts, pos, left) is Some,
    ensures
        !is_product_operator(kind_at(ts, product_rest(ts, pos, left)->Some_0.1)),
        pos <= product_rest(ts, pos, left)->Some_0.1,
    decreases ts.len() - pos,
{
    let operator = kind_at(ts, pos);
    if is_product_operator(operator) {
        let (right, next) = unary(ts, pos + 1)->Some_0;
        lemma_product_rest_ends(
            ts,
            next,
            Expr::Infix { operator, left: Box::new(left), right: Box::new(right) },
        );
    }
}

/// A sum ends before a token that is neither `+` nor `-`.
pub proof fn lemma_sum_rest_ends(ts: Seq<TokenView>, pos: nat, left: Expr)
    requires
        sum_rest(ts, pos, left) is Some,
    ensures
        !is_sum_operator(kind_at(ts, sum_rest(ts, pos, left)->Some_0.1)),
        pos <= sum_rest(ts, pos, left)->Some_0.1,
    decreases ts.len() - pos,
{
    let operator = kind_at(ts, pos);
    if is_sum_operator(operator) {
        let (right, next) = product(ts, pos + 1)->Some_0;
        lemma_sum_rest_ends(
            ts,
            next,
            Expr::Infix { operator, left: Box::new(left), right: Box::new(right) },
        );
    }
}

/// A unary expression that is not followed by an opening parenthesis is a
/// prefix production of the parser.
pub proof fn lemma_unary_agrees(ts: Seq<TokenView>, pos: nat)
    requires
        unary(ts, pos) is Some,
        kind_at(ts, unary(ts, pos)->Some_0.1) != open_paren(),
    ensures
        parse_prefix(ts, pos) == Ok::<(Expr, nat), ParseErrorView>(unary(ts, pos)->Some_0),
        pos < unary(ts, pos)->Some_0.1 <= ts.len(),
    decreases ts.len() - pos, 0nat,
{
    let (e, next) = unary(ts, pos)->Some_0;
    if punctuator_at(ts, pos, Punctuator::Sub) {
        let (right, end) = unary(ts, pos + 1)->Some_0;
        lemma_unary_agrees(ts, pos + 1);
        assert(parse_infix_loop(ts, end, PREFIX, right) == Ok::<(Expr, nat), ParseErrorView>(
            (right, end),
        ));
        assert(parse_expression(ts, pos + 1, PREFIX) == Ok::<(Expr, nat), ParseErrorView>(
            (right, end),
        ));
    } else if punctuator_at(ts, pos, Punctuator::OpenParen) {
        assert(unary(ts, pos) == primary(ts, pos));
        assert(sum(ts, pos + 1) is Some);
        let (inner, end) = sum(ts, pos + 1)->Some_0;
        assert(punctuator_at(ts, end, Punctuator::CloseParen));
        lemma_sum_agrees(ts, pos + 1, LOWEST);
        assert(parse_infix_loop(ts, end, LOWEST, inner) == Ok::<(Expr, nat), ParseErrorView>(
            (inner, end),
        ));
    }
}

/// The parser folds the operators of a product as the grammar does.
pub proof fn lemma_product_rest_agrees(ts: Seq<TokenView>, pos: nat, left: Expr, min: u8)
    requires
        pos <= ts.len(),
        min < PRODUCT,
        product_rest(ts, pos, left) is Some,
        kind_at(ts, product_rest(ts, pos, left)->Some_0.1) != open_paren(),
    ensures
        parse_infix_loop(ts, pos, min, left) == parse_infix_loop(
            ts,
            product_rest(ts, pos, left)->Some_0.1,
            min,
            product_rest(ts, pos, left)->Some_0.0,
        ),
        pos <= product_rest(ts, pos, left)->Some_0.1 <= ts.len(),
    decreases ts.len() - pos, 0nat,
{
    let operator = kind_at(ts, pos);
    if is_product_operator(operator) {
        let (right, next) = unary(ts, pos + 1)->Some_0;
        let folded = Expr::Infix { operator, left: Box::new(left), right: Box::new(right) };
        lemma_product_rest_ends(ts, next, folded);
        lemma_unary_agrees(ts, pos + 1);
        assert(parse_infix_loop(ts, next, PRODUCT, right) == Ok::<(Expr, nat), ParseErrorView>(
            (right, next),
        ));
        assert(parse_expression(ts, pos + 1, PRODUCT) == Ok::<(Expr, nat), ParseErrorView>(
            (right, next),
        ));
        lemma_product_rest_agrees(ts, next, folded, min);
    }
}

/// The parser reads a product as the grammar does.
pub proof fn lemma_product_agrees(ts: Seq<TokenView>, pos: nat, min: u8)
    requires
        min < PRODUCT,
        product(ts, pos) is Some,
        kind_at(ts, product(ts, pos)->Some_0.1) != open_paren(),
    ensures
        parse_expression(ts, pos, min) == parse_infix_loop(
            ts,
            product(ts, pos)->Some_0.1,
            min,
            product(ts, pos)->Some_0.0,
        ),
        pos < product(ts, pos)->Some_0.1 <= ts.len(),
    decreases ts.len() - pos, 1nat,
{
    let (left, next) = unary(ts, pos)->Some_0;
    lemma_product_rest_ends(ts, next, left);
    lemma_unary_agrees(ts, pos);
    lemma_product_rest_agrees(ts, next, left, min);
}

/// The parser folds the operators of a sum as the grammar does.
pub proof fn lemma_sum_rest_agrees(ts: Seq<TokenView>, pos: nat, left: Expr, min: u8)
    requires
        pos <= ts.len(),
        min < SUM,
        sum_rest(ts, pos, left) is Some,
        kind_at(ts, sum_rest(ts, pos, left)->Some_0.1) != open_paren(),
    ensures
        parse_infix_loop(ts, pos, min, left) == parse_infix_loop(
            ts,
            sum_rest(ts, pos, left)->Some_0.1,
            min,
            sum_rest(ts, pos, left)->Some_0.0,
        ),
        pos <= sum_rest(ts, pos, left)->Some_0.1 <= ts.len(),
    decreases ts.len() - pos, 0nat,
{
    let operator = kind_at(ts, pos);
    if is_sum_operator(operator) {
        let (right, next) = product(ts, pos + 1)->Some_0;
        let folded = Expr::Infix { operator, left: Box::new(left), right: Box::new(right) };
        lemma_sum_rest_ends(ts, next, folded);
        let (first, middle) = unary(ts, pos + 1)->Some_0;
        lemma_product_rest_ends(ts, middle, first);
        lemma_product_agrees(ts, pos + 1, SUM);
        assert(parse_infix_loop(ts, next, SUM, right) == Ok::<(Expr, nat), ParseErrorView>(
            (right, next),
        ));
        lemma_sum_rest_agrees(ts, next, folded, min);
    }
}

/// The parser reads a sum as the grammar does, up to where the sum ends.
pub proof fn lemma_sum_agrees(ts: Seq<TokenView>, pos: nat, min: u8)
    requires
        min < SUM,
        sum(ts, pos) is Some,
        kind_at(ts, sum(ts, pos)->Some_0.1) != open_paren(),
    ensures
        parse_expression(ts, pos, min) == parse_infix_loop(
            ts,
            sum(ts, pos)->Some_0.1,
            min,
            sum(ts, pos)->Some_0.0,
        ),
        pos < sum(ts, pos)->Some_0.1 <= ts.len(),
    decreases ts.len() - pos, 2nat,
{
    let (left, next) = product(ts, pos)->Some_0;
    lemma_sum_rest_ends(ts, next, left);
    let (first, middle) = unary(ts, pos)->Some_0;
    lemma_product_rest_ends(ts, middle, first);
    lemma_product_agrees(ts, pos, min);
    lemma_sum_rest_agrees(ts, next, left, min);
}

/// Precedence climbing reads arithmetic as the grammar of arithmetic says.
/// Where the tokens from `pos` on are a sum of the grammar, and the token
/// behind the sum binds nothing, the parser yields the tree of the grammar:
/// products before sums, the operators of one level from left to right,
/// unary minus before any binary operator, and parentheses before all.
pub proof fn law_standard_arithmetic(ts: Seq<TokenView>, pos: nat)
    requires
        sum(ts, pos) is Some,
        precedence_of(kind_at(ts, sum(ts, pos)->Some_0.1)) == LOWEST,
    ensures
        parse_expression(ts, pos, LOWEST) == Ok::<(Expr, nat), ParseErrorView>(
            sum(ts, pos)->Some_0,
        ),
        is_arithmetic(sum(ts, pos)->Some_0.0),
{
    lemma_sum_agrees(ts, pos, LOWEST);
    lemma_sum_is_arithmetic(ts, pos);
}

/// What a primary of the grammar yields is arithmetic.
pub proof fn lemma_primary_is_arithmetic(ts: Seq<TokenView>, pos: nat)
    requires
        primary(ts, pos) is Some,
    ensures
        is_arithmetic(primary(ts, pos)->Some_0.0),
    decreases ts.len() - pos, 0nat,
{
    if token_at(ts, pos).kind != TokenKind::Integer {
        lemma_sum_is_arithmetic(ts, pos + 1);
    }
}

/// What a unary expression of the grammar yields is arithmetic.
pub proof fn lemma_unary_is_arithmetic(ts: Seq<TokenView>, pos: nat)
    requires
        unary(ts, pos) is Some,
    ensures
        is_arithmetic(unary(ts, pos)->Some_0.0),
    decreases ts.len() - pos, 1nat,
{
    if punctuator_at(ts, pos, Punctuator::Sub) {
        lemma_unary_is_arithmetic(ts, pos + 1);
    } else {
        lemma_primary_is_arithmetic(ts, pos);
    }
}

/// What the operators of a product yield from an arithmetic operand is
/// arithmetic.
pub proof fn lemma_product_rest_is_arithmetic(ts: Seq<TokenView>, pos: nat, left: Expr)
    requires
        product_rest(ts, pos, left) is Some,
        is_arithmetic(left),
    ensures
        is_arithmetic(product_rest(ts, pos, left)->Some_0.0),
    decreases ts.len() - pos, 0nat,
{
    let operator = kind_at(ts, pos);
    if is_product_operator(operator) {
        let (right, next) = unary(ts, pos + 1)->Some_0;
        lemma_unary_is_arithmetic(ts, pos + 1);
        lemma_product_rest_is_arithmetic(
            ts,
            next,
            Expr::Infix { operator, left: Box::new(left), right: Box::new(right) },
        );
    }
}

/// What a product of the grammar yields is arithmetic.
pub proof fn lemma_product_is_arithmetic(ts: Seq<TokenView>, pos: nat)
    requires
        product(ts, pos) is Some,
    ensures
        is_arithmetic(product(ts, pos)->Some_0.0),
    decreases ts.len() - pos, 2nat,
{
    let (left, next) = unary(ts, pos)->Some_0;
    lemma_unary_is_arithmetic(ts, pos);
    lemma_product_rest_is_arithmetic(ts, next, left);
}

/// What the operators of a sum yield from an arithmetic operand is
/// arithmetic.
pub proof fn lemma_sum_rest_is_arithmetic(ts: Seq<TokenView>, pos: nat, left: Expr)
    requires
        sum_rest(ts, pos, left) is Some,
        is_arithmetic(left),
    ensures
        is_arithmetic(sum_rest(ts, pos, left)->Some_0.0),
    decreases ts.len() - pos, 0nat,
{
    let operator = kind_at(ts, pos);
    if is_sum_operator(operator) {
        let (right, next) = product(ts, pos + 1)->Some_0;
        lemma_product_is_arithmetic(ts, pos + 1);
        lemma_sum_rest_is_arithmetic(
            ts,
            next,
            Expr::Infix { operator, left: Box::new(left), right: Box::new(right) },
        );
    }
}

/// What a sum of the grammar yields is arithmetic.
pub proof fn lemma_sum_is_arithmetic(ts: Seq<TokenView>, pos: nat)
    requires
        sum(ts, pos) is Some,
    ensures
        is_arithmetic(sum(ts, pos)->Some_0.0),
    decreases ts.len() - pos, 3nat,
{
    let (left, next) = product(ts, pos)->Some_0;
    lemma_product_is_arithmetic(ts, pos);
    lemma_sum_rest_is_arithmetic(ts, next, left);
}

} // verus!
