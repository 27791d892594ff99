//! Parsing in context: what a production yields depends on the kinds and
//! texts of the tokens that it reads, not on where they stand or on what
//! stands around them.

use vstd::prelude::*;
use crate::composition::word_of;
use crate::parser::grammar::{
    kind_at,
    parse_block,
    parse_block_statements,
    parse_call_arguments,
    parse_expression,
    parse_expression_list,
    parse_function,
    parse_if,
    parse_infix_loop,
    parse_parameter_list,
    parse_parameters,
    parse_prefix,
    parse_statement,
    punctuator_at,
    token_at,
    Parsed,
};
use crate::parser::laws::{
    law_expression_regular,
    law_statement_regular,
    lemma_block_regular,
    lemma_block_statements_regular,
    lemma_call_arguments_regular,
    lemma_expression_list_regular,
    lemma_infix_loop_regular,
    lemma_parameter_list_regular,
    lemma_parameters_regular,
    lemma_prefix_regular,
};
use crate::parser::node::{Expr, Stmt};
use crate::token::{precedence_of, Keyword, Punctuator, TokenKind, TokenView, LOWEST, PREFIX};

verus! {

/// Whether a token kind ends an expression quietly: it binds nothing and
/// is not `else`.
pub open spec fn calm(kind: TokenKind) -> bool {
    precedence_of(kind) == LOWEST && kind != TokenKind::Keyword(Keyword::Else)
}

/// Whether `n` tokens of `ts1` from `a` on and `n` tokens of `ts2` from `b`
/// on have the same kinds and texts, and the token behind them ends an
/// expression quietly in both.
pub open spec fn same_window(
    ts1: Seq<TokenView>,
    a: nat,
    ts2: Seq<TokenView>,
    b: nat,
    n: nat,
) -> bool {
    &&& a + n <= ts1.len()
    &&& b + n <= ts2.len()
    &&& forall|i: int| a <= i < a + n ==> word_of(#[trigger] ts1[i]) == word_of(ts2[i - a + b])
    &&& calm(kind_at(ts1, a + n))
    &&& calm(kind_at(ts2, b + n))
}

/// Whether a production succeeded and ended within the window.
pub open spec fn within<T>(r: Parsed<T>, a: nat, n: nat) -> bool {
    r matches Ok((_, end)) && end <= a + n
}

/// The result of a production, carried from the window at `a` to the
/// window at `b`.
pub open spec fn carried<T>(r: Parsed<T>, a: nat, b: nat) -> Parsed<T> {
    match r {
        Ok((x, end)) => Ok((x, (end - a + b) as nat)),
        Err(e) => Err(e),
    }
}

/// The tokens of the two windows at the same place have the same kind and
/// text.
pub proof fn lemma_window_token(
    ts1: Seq<TokenView>,
    a: nat,
    ts2: Seq<TokenView>,
    b: nat,
    n: nat,
    i: nat,
)
    requires
        same_window(ts1, a, ts2, b, n),
        i < n,
    ensures
        token_at(ts1, a + i).kind == token_at(ts2, b + i).kind,
        token_at(ts1, a + i).literal == token_at(ts2, b + i).literal,
        kind_at(ts1, a + i) == kind_at(ts2, b + i),
{
    assert(word_of(ts1[(a + i) as int]) == word_of(ts2[(a + i) as int - a + b]));
}

/// A parameter list is read in the same way in both windows.
pub proof fn lemma_parameter_list_in_context(
    ts1: Seq<TokenView>,
    a: nat,
    ts2: Seq<TokenView>,
    b: nat,
    n: nat,
    i: nat,
    acc: Seq<Seq<char>>,
)
    requires
        same_window(ts1, a, ts2, b, n),
        within(parse_parameter_list(ts1, a + i, acc), a, n),
    ensures
        parse_parameter_list(ts2, b + i, acc) == carried(
            parse_parameter_list(ts1, a + i, acc),
            a,
            b,
        ),
    decreases ts1.len() - (a + i),
{
    let names = acc.push(token_at(ts1, a + i).literal);
    if punctuator_at(ts1, a + i + 1, Punctuator::Comma) {
        lemma_parameter_list_regular(ts1, a + i + 2, names);
    }
    assert(a + i + 2 <= a + n);
    lemma_window_token(ts1, a, ts2, b, n, i);
    lemma_window_token(ts1, a, ts2, b, n, i + 1);
    if punctuator_at(ts1, a + i + 1, Punctuator::Comma) {
        lemma_parameter_list_in_context(ts1, a, ts2, b, n, i + 2, names);
    }
}

/// The parameters of a function literal are read in the same way in both
/// windows.
pub proof fn lemma_parameters_in_context(
    ts1: Seq<TokenView>,
    a: nat,
    ts2: Seq<TokenView>,
    b: nat,
    n: nat,
    i: nat,
)
    requires
        same_window(ts1, a, ts2, b, n),
        within(parse_parameters(ts1, a + i), a, n),
    ensures
        parse_parameters(ts2, b + i) == carried(parse_parameters(ts1, a + i), a, b),
{
    lemma_parameters_regular(ts1, a + i);
    lemma_window_token(ts1, a, ts2, b, n, i);
    if !punctuator_at(ts1, a + i, Punctuator::CloseParen) {
        lemma_parameter_list_in_context(ts1, a, ts2, b, n, i, Seq::empty());
    }
}

/// An `if` expression is read in the same way in both windows.
#[verifier::rlimit(100)]
pub proof fn lemma_if_in_context(
    ts1: Seq<TokenView>,
    a: nat,
    ts2: Seq<TokenView>,
    b: nat,
    n: nat,
    i: nat,
)
    requires
        same_window(ts1, a, ts2, b, n),
        within(parse_if(ts1, a + i), a, n),
    ensures
        parse_if(ts2, b + i) == carried(parse_if(ts1, a + i), a, b),
    decreases ts1.len() - (a + i), 0nat,
{
    let pos = a + i;
    assert(punctuator_at(ts1, pos + 1, Punctuator::OpenParen));
    assert(parse_expression(ts1, pos + 2, LOWEST) is Ok);
    law_expression_regular(ts1, pos + 2, LOWEST);
    let (condition, first) = parse_expression(ts1, pos + 2, LOWEST)->Ok_0;
    assert(punctuator_at(ts1, first, Punctuator::CloseParen));
    assert(parse_block(ts1, first + 1) is Ok);
    lemma_block_regular(ts1, first + 1);
    let (consequence, second) = parse_block(ts1, first + 1)->Ok_0;
    let other = kind_at(ts1, second) == TokenKind::Keyword(Keyword::Else);
    if other {
        assert(parse_block(ts1, second + 1) is Ok);
        lemma_block_regular(ts1, second + 1);
    }
    assert(pos + 2 < first && first + 1 < second && second <= a + n);
    let fi = (first - a) as nat;
    let se = (second - a) as nat;
    assert(a + fi == first && a + se == second);
    lemma_window_token(ts1, a, ts2, b, n, i + 1);
    assert(punctuator_at(ts2, b + i + 1, Punctuator::OpenParen));
    lemma_expression_in_context(ts1, a, ts2, b, n, i + 2, LOWEST);
    assert(parse_expression(ts2, b + i + 2, LOWEST) == Ok::<
        (Expr, nat),
        crate::parser::grammar::ParseErrorView,
    >((condition, b + fi)));
    lemma_window_token(ts1, a, ts2, b, n, fi);
    assert(punctuator_at(ts2, b + fi, Punctuator::CloseParen));
    lemma_block_in_context(ts1, a, ts2, b, n, fi + 1);
    assert(parse_block(ts2, b + fi + 1) == Ok::<
        (Seq<Stmt>, nat),
        crate::parser::grammar::ParseErrorView,
    >((consequence, b + se)));
    if se < n {
        lemma_window_token(ts1, a, ts2, b, n, se);
    }
    assert((kind_at(ts2, b + se) == TokenKind::Keyword(Keyword::Else)) == other);
    if other {
        lemma_block_in_context(ts1, a, ts2, b, n, se + 1);
    }
}

/// A function literal is read in the same way in both windows.
#[verifier::rlimit(100)]
pub proof fn lemma_function_in_context(
    ts1: Seq<TokenView>,
    a: nat,
    ts2: Seq<TokenView>,
    b: nat,
    n: nat,
    i: nat,
)
    requires
        same_window(ts1, a, ts2, b, n),
        within(parse_function(ts1, a + i), a, n),
    ensures
        parse_function(ts2, b + i) == carried(parse_function(ts1, a + i), a, b),
    decreases ts1.len() - (a + i), 0nat,
{
    let pos = a + i;
    assert(punctuator_at(ts1, pos + 1, Punctuator::OpenParen));
    assert(parse_parameters(ts1, pos + 2) is Ok);
    lemma_parameters_regular(ts1, pos + 2);
    let (parameters, first) = parse_parameters(ts1, pos + 2)->Ok_0;
    assert(parse_block(ts1, first) is Ok);
    lemma_block_regular(ts1, first);
    let (body, second) = parse_block(ts1, first)->Ok_0;
    assert(pos + 2 < first && first < second && second <= a + n);
    let fi = (first - a) as nat;
    assert(a + fi == first);
    lemma_window_token(ts1, a, ts2, b, n, i + 1);
    assert(punctuator_at(ts2, b + i + 1, Punctuator::OpenParen));
    lemma_parameters_in_context(ts1, a, ts2, b, n, i + 2);
    assert(parse_parameters(ts2, b + i + 2) == Ok::<
        (Seq<Seq<char>>, nat),
        crate::parser::grammar::ParseErrorView,
    >((parameters, b + fi)));
    lemma_block_in_context(ts1, a, ts2, b, n, fi);
}

/// A prefix production is read in the same way in both windows.
pub proof fn lemma_prefix_in_context(
    ts1: Seq<TokenView>,
    a: nat,
    ts2: Seq<TokenView>,
    b: nat,
    n: nat,
    i: nat,
)
    requires
        same_window(ts1, a, ts2, b, n),
        within(parse_prefix(ts1, a + i), a, n),
    ensures
        parse_prefix(ts2, b + i) == carried(parse_prefix(ts1, a + i), a, b),
    decreases ts1.len() - (a + i), 1nat,
{
    let pos = a + i;
    lemma_prefix_regular(ts1, pos);
    lemma_window_token(ts1, a, ts2, b, n, i);
    match token_at(ts1, pos).kind {
        TokenKind::Punctuator(Punctuator::Not) | TokenKind::Punctuator(Punctuator::Sub) => {
            lemma_expression_in_context(ts1, a, ts2, b, n, i + 1, PREFIX);
        },
        TokenKind::Punctuator(Punctuator::OpenParen) => {
            law_expression_regular(ts1, pos + 1, LOWEST);
            let (inner, next) = parse_expression(ts1, pos + 1, LOWEST)->Ok_0;
            lemma_expression_in_context(ts1, a, ts2, b, n, i + 1, LOWEST);
            lemma_window_token(ts1, a, ts2, b, n, (next - a) as nat);
        },
        TokenKind::Keyword(Keyword::If) => {
            lemma_if_in_context(ts1, a, ts2, b, n, i);
        },
        TokenKind::Keyword(Keyword::Function) => {
            lemma_function_in_context(ts1, a, ts2, b, n, i);
        },
        _ => {},
    }
}

/// An expression is read in the same way in both windows.
pub proof fn lemma_expression_in_context(
    ts1: Seq<TokenView>,
    a: nat,
    ts2: Seq<TokenView>,
    b: nat,
    n: nat,
    i: nat,
    min: u8,
)
    requires
        same_window(ts1, a, ts2, b, n),
        within(parse_expression(ts1, a + i, min), a, n),
    ensures
        parse_expression(ts2, b + i, min) == carried(parse_expression(ts1, a + i, min), a, b),
    decreases ts1.len() - (a + i), 2nat,
{
    let pos = a + i;
    lemma_prefix_regular(ts1, pos);
    let (left, next) = parse_prefix(ts1, pos)->Ok_0;
    lemma_infix_loop_regular(ts1, next, min, left);
    lemma_prefix_in_context(ts1, a, ts2, b, n, i);
    lemma_infix_loop_in_context(ts1, a, ts2, b, n, (next - a) as nat, min, left);
}

/// The operators behind an expression are read in the same way in both
/// windows.
pub proof fn lemma_infix_loop_in_context(
    ts1: Seq<TokenView>,
    a: nat,
    ts2: Seq<TokenView>,
    b: nat,
    n: nat,
    i: nat,
    min: u8,
    left: Expr,
)
    requires
        same_window(ts1, a, ts2, b, n),
        i <= n,
        within(parse_infix_loop(ts1, a + i, min, left), a, n),
    ensures
        parse_infix_loop(ts2, b + i, min, left) == carried(
            parse_infix_loop(ts1, a + i, min, left),
            a,
            b,
        ),
    decreases ts1.len() - (a + i), 0nat,
{
    let pos = a + i;
    if i < n {
        lemma_window_token(ts1, a, ts2, b, n, i);
        let kind = kind_at(ts1, pos);
        if precedence_of(kind) > min {
            if kind == TokenKind::Punctuator(Punctuator::OpenParen) {
                lemma_call_arguments_regular(ts1, pos + 1);
                let (arguments, next) = parse_call_arguments(ts1, pos + 1)->Ok_0;
                let call = Expr::Call { function: Box::new(left), arguments };
                lemma_infix_loop_regular(ts1, next, min, call);
                lemma_call_arguments_in_context(ts1, a, ts2, b, n, i + 1);
                lemma_infix_loop_in_context(ts1, a, ts2, b, n, (next - a) as nat, min, call);
            } else {
                law_expression_regular(ts1, pos + 1, precedence_of(kind));
                let (right, next) = parse_expression(ts1, pos + 1, precedence_of(kind))->Ok_0;
                let folded = Expr::Infix {
                    operator: kind,
                    left: Box::new(left),
                    right: Box::new(right),
                };
                lemma_infix_loop_regular(ts1, next, min, folded);
                lemma_expression_in_context(ts1, a, ts2, b, n, i + 1, precedence_of(kind));
                lemma_infix_loop_in_context(ts1, a, ts2, b, n, (next - a) as nat, min, folded);
            }
        }
    }
}

/// The arguments of a call are read in the same way in both windows.
pub proof fn lemma_call_arguments_in_context(
    ts1: Seq<TokenView>,
    a: nat,
    ts2: Seq<TokenView>,
    b: nat,
    n: nat,
    i: nat,
)
    requires
        same_window(ts1, a, ts2, b, n),
        within(parse_call_arguments(ts1, a + i), a, n),
    ensures
        parse_call_arguments(ts2, b + i) == carried(parse_call_arguments(ts1, a + i), a, b),
    decreases ts1.len() - (a + i), 4nat,
{
    lemma_call_arguments_regular(ts1, a + i);
    lemma_window_token(ts1, a, ts2, b, n, i);
    if !punctuator_at(ts1, a + i, Punctuator::CloseParen) {
        lemma_expression_list_in_context(ts1, a, ts2, b, n, i, Seq::empty());
    }
}

/// A list of expressions is read in the same way in both windows.
pub proof fn lemma_expression_list_in_context(
    ts1: Seq<TokenView>,
    a: nat,
    ts2: Seq<TokenView>,
    b: nat,
    n: nat,
    i: nat,
    acc: Seq<Expr>,
)
    requires
        same_window(ts1, a, ts2, b, n),
        within(parse_expression_list(ts1, a + i, acc), a, n),
    ensures
        parse_expression_list(ts2, b + i, acc) == carried(
            parse_expression_list(ts1, a + i, acc),
            a,
            b,
        ),
    decreases ts1.len() - (a + i), 3nat,
{
    let pos = a + i;
    lemma_expression_list_regular(ts1, pos, acc);
    law_expression_regular(ts1, pos, LOWEST);
    let (item, next) = parse_expression(ts1, pos, LOWEST)->Ok_0;
    if punctuator_at(ts1, next, Punctuator::Comma) {
        lemma_expression_list_regular(ts1, next + 1, acc.push(item));
    }
    lemma_expression_in_context(ts1, a, ts2, b, n, i, LOWEST);
    lemma_window_token(ts1, a, ts2, b, n, (next - a) as nat);
    if punctuator_at(ts1, next, Punctuator::Comma) {
        lemma_expression_list_in_context(
            ts1,
            a,
            ts2,
            b,
            n,
            (next + 1 - a) as nat,
            acc.push(item),
        );
    }
}

/// The position behind a statement that ends with the expression that
/// ends at `next`, carried from the window at `a` to the window at `b`.
pub open spec fn carried_end(ts1: Seq<TokenView>, next: nat, a: nat, b: nat) -> nat {
    (crate::parser::grammar::skip_terminator(ts1, next) - a + b) as nat
}

/// The terminator behind an expression that ends within the window, before
/// its end, is skipped in the same way in both windows.
pub proof fn lemma_terminator_in_context(
    ts1: Seq<TokenView>,
    a: nat,
    ts2: Seq<TokenView>,
    b: nat,
    n: nat,
    next: nat,
)
    requires
        same_window(ts1, a, ts2, b, n),
        a <= next,
        crate::parser::grammar::skip_terminator(ts1, next) < a + n,
    ensures
        crate::parser::grammar::skip_terminator(ts2, (next - a + b) as nat) == carried_end(
            ts1,
            next,
            a,
            b,
        ),
{
    lemma_window_token(ts1, a, ts2, b, n, (next - a) as nat);
}

/// A `let` that ends before the end of the window is read in the same way
/// in both windows.
pub proof fn lemma_let_in_context(
    ts1: Seq<TokenView>,
    a: nat,
    ts2: Seq<TokenView>,
    b: nat,
    n: nat,
    i: nat,
    value: Expr,
    next: nat,
)
    requires
        same_window(ts1, a, ts2, b, n),
        kind_at(ts1, a + i) == TokenKind::Keyword(Keyword::Let),
        kind_at(ts1, a + i + 1) == TokenKind::Identifier,
        punctuator_at(ts1, a + i + 2, Punctuator::Assign),
        parse_expression(ts1, a + i + 3, LOWEST) == Ok::<(Expr, nat), crate::parser::grammar::ParseErrorView>((value, next)),
        a + i + 3 < next,
        crate::parser::grammar::skip_terminator(ts1, next) < a + n,
    ensures
        parse_statement(ts2, b + i) == Ok::<(Stmt, nat), crate::parser::grammar::ParseErrorView>(
            (
                Stmt::Let { name: token_at(ts1, a + i + 1).literal, value },
                carried_end(ts1, next, a, b),
            ),
        ),
    decreases ts1.len() - (a + i), 3nat,
{
    lemma_window_token(ts1, a, ts2, b, n, i);
    lemma_window_token(ts1, a, ts2, b, n, i + 1);
    lemma_window_token(ts1, a, ts2, b, n, i + 2);
    lemma_expression_in_context(ts1, a, ts2, b, n, i + 3, LOWEST);
    lemma_terminator_in_context(ts1, a, ts2, b, n, next);
    assert(parse_expression(ts2, b + i + 3, LOWEST) == Ok::<(Expr, nat), crate::parser::grammar::ParseErrorView>(
        (value, (next - a + b) as nat),
    ));
}

/// A `return` with a value that ends before the end of the window is read
/// in the same way in both windows.
pub proof fn lemma_return_in_context(
    ts1: Seq<TokenView>,
    a: nat,
    ts2: Seq<TokenView>,
    b: nat,
    n: nat,
    i: nat,
    value: Expr,
    next: nat,
)
    requires
        same_window(ts1, a, ts2, b, n),
        kind_at(ts1, a + i) == TokenKind::Keyword(Keyword::Return),
        !crate::parser::grammar::ends_statement(kind_at(ts1, a + i + 1)),
        parse_expression(ts1, a + i + 1, LOWEST) == Ok::<(Expr, nat), crate::parser::grammar::ParseErrorView>((value, next)),
        a + i + 1 < next,
        crate::parser::grammar::skip_terminator(ts1, next) < a + n,
    ensures
        parse_statement(ts2, b + i) == Ok::<(Stmt, nat), crate::parser::grammar::ParseErrorView>(
            (Stmt::Return { argument: Some(value) }, carried_end(ts1, next, a, b)),
        ),
    decreases ts1.len() - (a + i), 3nat,
{
    lemma_window_token(ts1, a, ts2, b, n, i);
    lemma_window_token(ts1, a, ts2, b, n, i + 1);
    lemma_expression_in_context(ts1, a, ts2, b, n, i + 1, LOWEST);
    lemma_terminator_in_context(ts1, a, ts2, b, n, next);
    assert(parse_expression(ts2, b + i + 1, LOWEST) == Ok::<(Expr, nat), crate::parser::grammar::ParseErrorView>(
        (value, (next - a + b) as nat),
    ));
}

/// An expression statement that ends before the end of the window is read
/// in the same way in both windows.
pub proof fn lemma_expression_statement_in_context(
    ts1: Seq<TokenView>,
    a: nat,
    ts2: Seq<TokenView>,
    b: nat,
    n: nat,
    i: nat,
    value: Expr,
    next: nat,
)
    requires
        same_window(ts1, a, ts2, b, n),
        kind_at(ts1, a + i) != TokenKind::Keyword(Keyword::Let),
        kind_at(ts1, a + i) != TokenKind::Keyword(Keyword::Return),
        parse_expression(ts1, a + i, LOWEST) == Ok::<(Expr, nat), crate::parser::grammar::ParseErrorView>((value, next)),
        a + i < next,
        crate::parser::grammar::skip_terminator(ts1, next) < a + n,
    ensures
        parse_statement(ts2, b + i) == Ok::<(Stmt, nat), crate::parser::grammar::ParseErrorView>(
            (Stmt::Expression { expression: value }, carried_end(ts1, next, a, b)),
        ),
    decreases ts1.len() - (a + i), 3nat,
{
    lemma_window_token(ts1, a, ts2, b, n, i);
    lemma_expression_in_context(ts1, a, ts2, b, n, i, LOWEST);
    lemma_terminator_in_context(ts1, a, ts2, b, n, next);
    assert(parse_expression(ts2, b + i, LOWEST) == Ok::<(Expr, nat), crate::parser::grammar::ParseErrorView>(
        (value, (next - a + b) as nat),
    ));
}

/// A statement that ends before the end of the window is read in the same
/// way in both windows.
pub proof fn lemma_statement_in_context(
    ts1: Seq<TokenView>,
    a: nat,
    ts2: Seq<TokenView>,
    b: nat,
    n: nat,
    i: nat,
)
    requires
        same_window(ts1, a, ts2, b, n),
        parse_statement(ts1, a + i) matches Ok((_, end)) && end < a + n,
    ensures
        parse_statement(ts2, b + i) == carried(parse_statement(ts1, a + i), a, b),
    decreases ts1.len() - (a + i), 4nat,
{
    let pos = a + i;
    let kind = kind_at(ts1, pos);
    if kind == TokenKind::Keyword(Keyword::Let) {
        law_expression_regular(ts1, pos + 3, LOWEST);
        let (value, next) = parse_expression(ts1, pos + 3, LOWEST)->Ok_0;
        lemma_let_in_context(ts1, a, ts2, b, n, i, value, next);
    } else if kind == TokenKind::Keyword(Keyword::Return) {
        if crate::parser::grammar::ends_statement(kind_at(ts1, pos + 1)) {
            lemma_window_token(ts1, a, ts2, b, n, i);
            lemma_window_token(ts1, a, ts2, b, n, i + 1);
        } else {
            law_expression_regular(ts1, pos + 1, LOWEST);
            let (value, next) = parse_expression(ts1, pos + 1, LOWEST)->Ok_0;
            lemma_return_in_context(ts1, a, ts2, b, n, i, value, next);
        }
    } else {
        law_expression_regular(ts1, pos, LOWEST);
        let (value, next) = parse_expression(ts1, pos, LOWEST)->Ok_0;
        lemma_expression_statement_in_context(ts1, a, ts2, b, n, i, value, next);
    }
}

/// The statements of a block are read in the same way in both windows.
pub proof fn lemma_block_statements_in_context(
    ts1: Seq<TokenView>,
    a: nat,
    ts2: Seq<TokenView>,
    b: nat,
    n: nat,
    i: nat,
    acc: Seq<Stmt>,
)
    requires
        same_window(ts1, a, ts2, b, n),
        within(parse_block_statements(ts1, a + i, acc), a, n),
    ensures
        parse_block_statements(ts2, b + i, acc) == carried(
            parse_block_statements(ts1, a + i, acc),
            a,
            b,
        ),
    decreases ts1.len() - (a + i), 5nat,
{
    let pos = a + i;
    lemma_block_statements_regular(ts1, pos, acc);
    lemma_window_token(ts1, a, ts2, b, n, i);
    if !punctuator_at(ts1, pos, Punctuator::CloseBlock) {
        law_statement_regular(ts1, pos);
        let (statement, next) = parse_statement(ts1, pos)->Ok_0;
        lemma_block_statements_regular(ts1, next, acc.push(statement));
        lemma_statement_in_context(ts1, a, ts2, b, n, i);
        lemma_block_statements_in_context(
            ts1,
            a,
            ts2,
            b,
            n,
            (next - a) as nat,
            acc.push(statement),
        );
    }
}

/// A block is read in the same way in both windows.
pub proof fn lemma_block_in_context(
    ts1: Seq<TokenView>,
    a: nat,
    ts2: Seq<TokenView>,
    b: nat,
    n: nat,
    i: nat,
)
    requires
        same_window(ts1, a, ts2, b, n),
        within(parse_block(ts1, a + i), a, n),
    ensures
        parse_block(ts2, b + i) == carried(parse_block(ts1, a + i), a, b),
    decreases ts1.len() - (a + i), 6nat,
{
    lemma_block_regular(ts1, a + i);
    lemma_window_token(ts1, a, ts2, b, n, i);
    lemma_block_statements_in_context(ts1, a, ts2, b, n, i + 1, Seq::empty());
}

/// Parsing does not depend on the context. Where two runs of tokens hold
/// the same kinds and texts in a window, and the token behind the window
/// binds nothing in either, an expression that parses within the window of
/// one parses to the same tree in the window of the other, whatever stands
/// before and behind the windows and whatever the positions of the tokens.
pub proof fn law_expression_in_context(
    ts1: Seq<TokenView>,
    a: nat,
    ts2: Seq<TokenView>,
    b: nat,
    n: nat,
    min: u8,
)
    requires
        same_window(ts1, a, ts2, b, n),
        within(parse_expression(ts1, a, min), a, n),
    ensures
        parse_expression(ts2, b, min) == carried(parse_expression(ts1, a, min), a, b),
{
    lemma_expression_in_context(ts1, a, ts2, b, n, 0, min);
}

} // verus!
