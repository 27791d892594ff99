//! Laws of the grammar.

use vstd::prelude::*;
use crate::parser::grammar::{
    advances,
    kind_at,
    parse_block,
    parse_block_statements,
    parse_call_arguments,
    parse_expression,
    parse_expression_list,
    parse_function,
    parse_if,
    parse_infix_loop,
    parse_parameter_list,
    parse_parameters,
    parse_prefix,
    parse_program,
    parse_statement,
    parse_statements,
    punctuator_at,
    token_at,
    ParseErrorView,
    Parsed,
};
use crate::parser::node::{Expr, Program, Stmt};
use crate::parser::{parse_source, program_outcome, ParseError};
use crate::text::numeral_value;
use crate::token::{precedence_of, Punctuator, TokenKind, TokenView, LOWEST, PREFIX};

verus! {

/// Parsing is a function of the source text: two results of parsing one
/// text spell the same tree, or report the same error.
pub proof fn law_parse_deterministic(
    source: Seq<char>,
    first: Result<Program, ParseError>,
    second: Result<Program, ParseError>,
)
    requires
        program_outcome(first) == parse_source(source),
        program_outcome(second) == parse_source(source),
    ensures
        program_outcome(first) == program_outcome(second),
        first matches Ok(a) ==> second matches Ok(b) && a@ == b@,
        first matches Err(a) ==> second matches Err(b) && a@ == b@,
{
}

/// What holds of every production: where it succeeds it took at least one
/// token and none behind the last, and where it fails the error is not the
/// one for a missing operator production.
pub open spec fn regular<T>(r: Parsed<T>, ts: Seq<TokenView>, pos: nat) -> bool {
    match r {
        Ok((_, next)) => advances(ts, pos, next),
        Err(e) => !(e is NoInfixParser),
    }
}

/// A parameter list is regular.
pub proof fn lemma_parameter_list_regular(ts: Seq<TokenView>, pos: nat, acc: Seq<Seq<char>>)
    ensures
        regular(parse_parameter_list(ts, pos, acc), ts, pos),
    decreases ts.len() - pos,
{
    if kind_at(ts, pos) == TokenKind::Identifier && punctuator_at(ts, pos + 1, Punctuator::Comma) {
        lemma_parameter_list_regular(ts, pos + 2, acc.push(token_at(ts, pos).literal));
    }
}

/// The parameters of a function literal are regular.
pub proof fn lemma_parameters_regular(ts: Seq<TokenView>, pos: nat)
    ensures
        regular(parse_parameters(ts, pos), ts, pos),
{
    lemma_parameter_list_regular(ts, pos, Seq::empty());
}

/// An `if` expression is regular.
#[verifier::rlimit(40)]
pub proof fn lemma_if_regular(ts: Seq<TokenView>, pos: nat)
    ensures
        regular(parse_if(ts, pos), ts, pos),
    decreases ts.len() - pos, 0nat,
{
    if punctuator_at(ts, pos + 1, Punctuator::OpenParen) {
        law_expression_regular(ts, pos + 2, LOWEST);
        match parse_expression(ts, pos + 2, LOWEST) {
            Ok((condition, left_end)) => {
                if advances(ts, pos, left_end) && punctuator_at(ts, left_end, Punctuator::CloseParen) {
                    lemma_block_regular(ts, left_end + 1);
                    match parse_block(ts, left_end + 1) {
                        Ok((consequence, right_end)) => {
                            if advances(ts, pos, right_end) && kind_at(ts, right_end) == TokenKind::Keyword(
                                crate::token::Keyword::Else,
                            ) {
                                lemma_block_regular(ts, right_end + 1);
                            }
                        },
                        Err(_) => {},
                    }
                }
            },
            Err(_) => {},
        }
    }
}

/// A function literal is regular.
pub proof fn lemma_function_regular(ts: Seq<TokenView>, pos: nat)
    ensures
        regular(parse_function(ts, pos), ts, pos),
    decreases ts.len() - pos, 0nat,
{
    if punctuator_at(ts, pos + 1, Punctuator::OpenParen) {
        lemma_parameters_regular(ts, pos + 2);
        match parse_parameters(ts, pos + 2) {
            Ok((parameters, left_end)) => {
                if advances(ts, pos, left_end) {
                    lemma_block_regular(ts, left_end);
                }
            },
            Err(_) => {},
        }
    }
}

/// A prefix production is regular.
pub proof fn lemma_prefix_regular(ts: Seq<TokenView>, pos: nat)
    ensures
        regular(parse_prefix(ts, pos), ts, pos),
    decreases ts.len() - pos, 1nat,
{
    match token_at(ts, pos).kind {
        TokenKind::Punctuator(Punctuator::Not) | TokenKind::Punctuator(Punctuator::Sub) => {
            law_expression_regular(ts, pos + 1, PREFIX);
        },
        TokenKind::Punctuator(Punctuator::OpenParen) => {
            law_expression_regular(ts, pos + 1, LOWEST);
        },
        TokenKind::Keyword(crate::token::Keyword::If) => {
            lemma_if_regular(ts, pos);
        },
        TokenKind::Keyword(crate::token::Keyword::Function) => {
            lemma_function_regular(ts, pos);
        },
        _ => {},
    }
}

/// Every expression that parses took at least one token and none behind
/// the last, and no expression fails for want of an operator production.
pub proof fn law_expression_regular(ts: Seq<TokenView>, pos: nat, min: u8)
    ensures
        regular(parse_expression(ts, pos, min), ts, pos),
    decreases ts.len() - pos, 2nat,
{
    lemma_prefix_regular(ts, pos);
    match parse_prefix(ts, pos) {
        Ok((left, next)) => {
            lemma_infix_loop_regular(ts, next, min, left);
        },
        Err(_) => {},
    }
}

/// The operators behind an expression leave it regular.
pub proof fn lemma_infix_loop_regular(ts: Seq<TokenView>, pos: nat, min: u8, left: Expr)
    requires
        pos <= ts.len(),
    ensures
        match parse_infix_loop(ts, pos, min, left) {
            Ok((_, next)) => pos <= next <= ts.len(),
            Err(e) => !(e is NoInfixParser),
        },
    decreases ts.len() - pos, 0nat,
{
    let kind = kind_at(ts, pos);
    if precedence_of(kind) > min {
        if kind == TokenKind::Punctuator(Punctuator::OpenParen) {
            lemma_call_arguments_regular(ts, pos + 1);
            match parse_call_arguments(ts, pos + 1) {
                Ok((arguments, next)) => {
                    if advances(ts, pos, next) {
                        lemma_infix_loop_regular(
                            ts,
                            next,
                            min,
                            Expr::Call { function: Box::new(left), arguments },
                        );
                    }
                },
                Err(_) => {},
            }
        } else {
            law_expression_regular(ts, pos + 1, precedence_of(kind));
            match parse_expression(ts, pos + 1, precedence_of(kind)) {
                Ok((right, next)) => {
                    if advances(ts, pos, next) {
                        lemma_infix_loop_regular(
                            ts,
                            next,
                            min,
                            Expr::Infix {
                                operator: kind,
                                left: Box::new(left),
                                right: Box::new(right),
                            },
                        );
                    }
                },
                Err(_) => {},
            }
        }
    }
}

/// The arguments of a call are regular.
pub proof fn lemma_call_arguments_regular(ts: Seq<TokenView>, pos: nat)
    ensures
        regular(parse_call_arguments(ts, pos), ts, pos),
    decreases ts.len() - pos, 4nat,
{
    if !punctuator_at(ts, pos, Punctuator::CloseParen) {
        lemma_expression_list_regular(ts, pos, Seq::empty());
    }
}

/// A list of expressions is regular.
pub proof fn lemma_expression_list_regular(ts: Seq<TokenView>, pos: nat, acc: Seq<Expr>)
    ensures
        regular(parse_expression_list(ts, pos, acc), ts, pos),
    decreases ts.len() - pos, 3nat,
{
    law_expression_regular(ts, pos, LOWEST);
    match parse_expression(ts, pos, LOWEST) {
        Ok((item, next)) => {
            if advances(ts, pos, next) && punctuator_at(ts, next, Punctuator::Comma) {
                lemma_expression_list_regular(ts, next + 1, acc.push(item));
            }
        },
        Err(_) => {},
    }
}

/// Every statement that parses took at least one token and none behind the
/// last, and no statement fails for want of an operator production.
pub proof fn law_statement_regular(ts: Seq<TokenView>, pos: nat)
    ensures
        regular(parse_statement(ts, pos), ts, pos),
    decreases ts.len() - pos, 3nat,
{
    match kind_at(ts, pos) {
        TokenKind::Keyword(crate::token::Keyword::Let) => {
            if kind_at(ts, pos + 1) == TokenKind::Identifier && punctuator_at(
                ts,
                pos + 2,
                Punctuator::Assign,
            ) {
                law_expression_regular(ts, pos + 3, LOWEST);
            }
        },
        TokenKind::Keyword(crate::token::Keyword::Return) => {
            law_expression_regular(ts, pos + 1, LOWEST);
        },
        _ => {
            law_expression_regular(ts, pos, LOWEST);
        },
    }
}

/// The statements of a block are regular.
pub proof fn lemma_block_statements_regular(ts: Seq<TokenView>, pos: nat, acc: Seq<Stmt>)
    ensures
        regular(parse_block_statements(ts, pos, acc), ts, pos),
    decreases ts.len() - pos, 4nat,
{
    if !punctuator_at(ts, pos, Punctuator::CloseBlock) && kind_at(ts, pos)
        != TokenKind::EndOfInput {
        law_statement_regular(ts, pos);
        match parse_statement(ts, pos) {
            Ok((statement, next)) => {
                if advances(ts, pos, next) {
                    lemma_block_statements_regular(ts, next, acc.push(statement));
                }
            },
            Err(_) => {},
        }
    }
}

/// A block is regular.
pub proof fn lemma_block_regular(ts: Seq<TokenView>, pos: nat)
    ensures
        regular(parse_block(ts, pos), ts, pos),
    decreases ts.len() - pos, 5nat,
{
    if punctuator_at(ts, pos, Punctuator::OpenBlock) {
        lemma_block_statements_regular(ts, pos + 1, Seq::empty());
    }
}

/// The statements up to the end of the input never fail for want of an
/// operator production.
pub proof fn lemma_statements_regular(ts: Seq<TokenView>, pos: nat, acc: Seq<Stmt>)
    ensures
        parse_statements(ts, pos, acc) matches Err(e) ==> !(e is NoInfixParser),
    decreases ts.len() - pos,
{
    if kind_at(ts, pos) != TokenKind::EndOfInput {
        law_statement_regular(ts, pos);
        match parse_statement(ts, pos) {
            Ok((statement, next)) => {
                if advances(ts, pos, next) {
                    lemma_statements_regular(ts, next, acc.push(statement));
                }
            },
            Err(_) => {},
        }
    }
}

/// No program fails for want of an operator production: every token kind
/// that binds more tightly than the lowest level has one.
pub proof fn law_no_missing_operator(ts: Seq<TokenView>)
    ensures
        parse_program(ts) matches Err(e) ==> !(e is NoInfixParser),
{
    lemma_statements_regular(ts, 0, Seq::empty());
}

/// An expression is its prefix production followed by the operators behind
/// it.
pub proof fn law_expression_unfolds(ts: Seq<TokenView>, pos: nat, min: u8)
    ensures
        parse_expression(ts, pos, min) == match parse_prefix(ts, pos) {
            Err(e) => Err(e),
            Ok((left, next)) => parse_infix_loop(ts, next, min, left),
        },
{
    lemma_prefix_regular(ts, pos);
}

/// An expression in parentheses is the expression between them.
pub proof fn law_grouping(ts: Seq<TokenView>, pos: nat)
    requires
        punctuator_at(ts, pos, Punctuator::OpenParen),
    ensures
        parse_prefix(ts, pos) == match parse_expression(ts, pos + 1, LOWEST) {
            Err(e) => Err(e),
            Ok((inner, next)) => if punctuator_at(ts, next, Punctuator::CloseParen) {
                Ok((inner, next + 1))
            } else {
                Err(crate::parser::grammar::unexpected(
                    ts,
                    next,
                    TokenKind::Punctuator(Punctuator::CloseParen),
                ))
            },
        },
{
}

/// Whether a token kind is a binary operator: it binds more tightly than
/// the lowest level and is not the parenthesis of a call.
pub open spec fn is_binary_operator(kind: TokenKind) -> bool {
    precedence_of(kind) > LOWEST && kind != TokenKind::Punctuator(Punctuator::OpenParen)
}

/// Precedence and associativity. Of three operands with two binary
/// operators between them, behind which nothing binds, the first two are
/// grouped where the first operator binds at least as tightly as the
/// second, and the last two where the second binds more tightly: operators
/// of one level group to the left, and a tighter operator takes its
/// operands first.
#[verifier::rlimit(40)]
pub proof fn law_precedence(
    ts: Seq<TokenView>,
    pos: nat,
    a: Expr,
    a_end: nat,
    b: Expr,
    b_end: nat,
    c: Expr,
    c_end: nat,
)
    requires
        parse_prefix(ts, pos) == Ok::<(Expr, nat), ParseErrorView>((a, a_end)),
        is_binary_operator(kind_at(ts, a_end)),
        parse_prefix(ts, a_end + 1) == Ok::<(Expr, nat), ParseErrorView>((b, b_end)),
        is_binary_operator(kind_at(ts, b_end)),
        parse_prefix(ts, b_end + 1) == Ok::<(Expr, nat), ParseErrorView>((c, c_end)),
        precedence_of(kind_at(ts, c_end)) == LOWEST,
    ensures
        ({
            let first = kind_at(ts, a_end);
            let second = kind_at(ts, b_end);
            parse_expression(ts, pos, LOWEST) == Ok::<(Expr, nat), ParseErrorView>(
                (
                    if precedence_of(first) >= precedence_of(second) {
                        Expr::Infix {
                            operator: second,
                            left: Box::new(
                                Expr::Infix {
                                    operator: first,
                                    left: Box::new(a),
                                    right: Box::new(b),
                                },
                            ),
                            right: Box::new(c),
                        }
                    } else {
                        Expr::Infix {
                            operator: first,
                            left: Box::new(a),
                            right: Box::new(
                                Expr::Infix {
                                    operator: second,
                                    left: Box::new(b),
                                    right: Box::new(c),
                                },
                            ),
                        }
                    },
                    c_end,
                ),
            )
        }),
{
    let first = kind_at(ts, a_end);
    let second = kind_at(ts, b_end);
    let l1 = precedence_of(first);
    let l2 = precedence_of(second);
    lemma_prefix_regular(ts, pos);
    lemma_prefix_regular(ts, a_end + 1);
    lemma_prefix_regular(ts, b_end + 1);
    assert(parse_infix_loop(ts, c_end, l1, c) == Ok::<(Expr, nat), ParseErrorView>((c, c_end)));
    assert(parse_infix_loop(ts, c_end, l2, c) == Ok::<(Expr, nat), ParseErrorView>((c, c_end)));
    assert(parse_expression(ts, b_end + 1, l2) == Ok::<(Expr, nat), ParseErrorView>((c, c_end)));
    if l1 >= l2 {
        let ab = Expr::Infix { operator: first, left: Box::new(a), right: Box::new(b) };
        let abc = Expr::Infix { operator: second, left: Box::new(ab), right: Box::new(c) };
        assert(parse_infix_loop(ts, b_end, l1, b) == Ok::<(Expr, nat), ParseErrorView>((b, b_end)));
        assert(parse_expression(ts, a_end + 1, l1) == Ok::<(Expr, nat), ParseErrorView>((b, b_end)));
        assert(parse_infix_loop(ts, c_end, LOWEST, abc) == Ok::<(Expr, nat), ParseErrorView>(
            (abc, c_end),
        ));
        assert(parse_infix_loop(ts, b_end, LOWEST, ab) == Ok::<(Expr, nat), ParseErrorView>(
            (abc, c_end),
        ));
        assert(parse_infix_loop(ts, a_end, LOWEST, a) == Ok::<(Expr, nat), ParseErrorView>(
            (abc, c_end),
        ));
    } else {
        let bc = Expr::Infix { operator: second, left: Box::new(b), right: Box::new(c) };
        let abc = Expr::Infix { operator: first, left: Box::new(a), right: Box::new(bc) };
        assert(parse_infix_loop(ts, c_end, l1, bc) == Ok::<(Expr, nat), ParseErrorView>((bc, c_end)));
        assert(parse_infix_loop(ts, b_end, l1, b) == Ok::<(Expr, nat), ParseErrorView>((bc, c_end)));
        assert(parse_expression(ts, a_end + 1, l1) == Ok::<(Expr, nat), ParseErrorView>((bc, c_end)));
        assert(parse_infix_loop(ts, c_end, LOWEST, abc) == Ok::<(Expr, nat), ParseErrorView>(
            (abc, c_end),
        ));
        assert(parse_infix_loop(ts, a_end, LOWEST, a) == Ok::<(Expr, nat), ParseErrorView>(
            (abc, c_end),
        ));
    }
}

/// Whether the tokens from `pos` on spell the expression `e` with every
/// operator and its operands in parentheses of their own, and if so where
/// they end. A name, a string, a truth value and an integer that is not
/// negative are spelled by one token; a unary operator as `( op right )`; a
/// binary operator as `( left op right )`.
pub open spec fn grouped(ts: Seq<TokenView>, pos: nat, e: Expr) -> Option<nat>
    decreases e,
{
    let token = token_at(ts, pos);
    match e {
        Expr::Identifier(name) => if token.kind == TokenKind::Identifier && token.literal == name {
            Some(pos + 1)
        } else {
            None
        },
        Expr::Integer(value) => if token.kind == TokenKind::Integer && numeral_value(
            token.literal,
        ) == Some(value as int) {
            Some(pos + 1)
        } else {
            None
        },
        Expr::Boolean(value) => if token.kind == TokenKind::Keyword(
            if value {
                crate::token::Keyword::True
            } else {
                crate::token::Keyword::False
            },
        ) {
            Some(pos + 1)
        } else {
            None
        },
        Expr::Str(text) => if token.kind == TokenKind::String && token.literal == text {
            Some(pos + 1)
        } else {
            None
        },
        Expr::Prefix { operator, right } => if punctuator_at(ts, pos, Punctuator::OpenParen) && (
        operator == TokenKind::Punctuator(Punctuator::Not) || operator == TokenKind::Punctuator(
            Punctuator::Sub,
        )) && kind_at(ts, pos + 1) == operator {
            match grouped(ts, pos + 2, *right) {
                Some(p) => if punctuator_at(ts, p, Punctuator::CloseParen) {
                    Some(p + 1)
                } else {
                    None
                },
                None => None,
            }
        } else {
            None
        },
        Expr::Infix { operator, left, right } => if punctuator_at(ts, pos, Punctuator::OpenParen)
            && is_binary_operator(operator) {
            match grouped(ts, pos + 1, *left) {
                Some(left_end) => if kind_at(ts, left_end) == operator {
                    match grouped(ts, left_end + 1, *right) {
                        Some(right_end) => if punctuator_at(ts, right_end, Punctuator::CloseParen) {
                            Some(right_end + 1)
                        } else {
                            None
                        },
                        None => None,
                    }
                } else {
                    None
                },
                None => None,
            }
        } else {
            None
        },
        _ => None,
    }
}

/// Parentheses decide the grouping. Tokens that spell an expression with
/// every operator in parentheses of its own parse, as a prefix production,
/// to exactly that expression, whatever the binding strengths of the
/// operators in it.
#[verifier::rlimit(40)]
pub proof fn law_parentheses_decide(ts: Seq<TokenView>, pos: nat, e: Expr)
    requires
        grouped(ts, pos, e) is Some,
    ensures
        parse_prefix(ts, pos) == Ok::<(Expr, nat), ParseErrorView>(
            (e, grouped(ts, pos, e)->Some_0),
        ),
    decreases e,
{
    match e {
        Expr::Prefix { operator, right } => {
            let p = grouped(ts, pos + 2, *right)->Some_0;
            law_parentheses_decide(ts, pos + 2, *right);
            lemma_prefix_regular(ts, pos + 2);
            lemma_prefix_regular(ts, pos + 1);
            assert(parse_infix_loop(ts, p, PREFIX, *right) == Ok::<(Expr, nat), ParseErrorView>(
                (*right, p),
            ));
            assert(parse_expression(ts, pos + 2, PREFIX) == Ok::<(Expr, nat), ParseErrorView>(
                (*right, p),
            ));
            assert(parse_prefix(ts, pos + 1) == Ok::<(Expr, nat), ParseErrorView>((e, p)));
            assert(parse_infix_loop(ts, p, LOWEST, e) == Ok::<(Expr, nat), ParseErrorView>((e, p)));
            assert(parse_expression(ts, pos + 1, LOWEST) == Ok::<(Expr, nat), ParseErrorView>(
                (e, p),
            ));
        },
        Expr::Infix { operator, left, right } => {
            let left_end = grouped(ts, pos + 1, *left)->Some_0;
            let right_end = grouped(ts, left_end + 1, *right)->Some_0;
            let level = precedence_of(operator);
            law_parentheses_decide(ts, pos + 1, *left);
            law_parentheses_decide(ts, left_end + 1, *right);
            lemma_prefix_regular(ts, pos + 1);
            lemma_prefix_regular(ts, left_end + 1);
            assert(parse_infix_loop(ts, right_end, level, *right) == Ok::<(Expr, nat), ParseErrorView>(
                (*right, right_end),
            ));
            assert(parse_expression(ts, left_end + 1, level) == Ok::<(Expr, nat), ParseErrorView>(
                (*right, right_end),
            ));
            assert(parse_infix_loop(ts, right_end, LOWEST, e) == Ok::<(Expr, nat), ParseErrorView>(
                (e, right_end),
            ));
            assert(parse_infix_loop(ts, left_end, LOWEST, *left) == Ok::<(Expr, nat), ParseErrorView>(
                (e, right_end),
            ));
            assert(parse_expression(ts, pos + 1, LOWEST) == Ok::<(Expr, nat), ParseErrorView>(
                (e, right_end),
            ));
        },
        _ => {},
    }
}

} // verus!
