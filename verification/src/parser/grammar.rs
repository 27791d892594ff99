//! The grammar, as functions from a run of tokens and a position to a tree
//! and the position behind it.
//!
//! Expressions are read by precedence climbing: a prefix production, then
//! operators for as long as they bind more tightly than the level asked for.
//! Every binary operator associates to the left, and the unary operators
//! bind more tightly than any binary one. A statement is followed by at most
//! one semicolon, which is never required.

use vstd::prelude::*;
use crate::parser::node::{Expr, Stmt};
use crate::text::numeral_value;
use crate::token::{Keyword, Punctuator, TokenKind, TokenView, precedence_of, LOWEST, PREFIX};

verus! {

/// The mathematical content of a parse error.
pub enum ParseErrorView {
    UnexpectedToken { expected: TokenKind, found: TokenView, position: nat },
    NoPrefixParser { token: TokenView },
    NoInfixParser { token: TokenView },
    UnterminatedExpression,
}

/// What a parsing function yields: a tree and the position behind it, or
/// the first error.
pub type Parsed<T> = Result<(T, nat), ParseErrorView>;

/// The token that stands for the end of the input behind the last token.
pub open spec fn end_token() -> TokenView {
    TokenView { kind: TokenKind::EndOfInput, literal: Seq::empty(), position: 0 }
}

/// The token at `pos`; behind the last token stands the end of the input.
pub open spec fn token_at(ts: Seq<TokenView>, pos: nat) -> TokenView {
    if pos < ts.len() {
        ts[pos as int]
    } else {
        end_token()
    }
}

/// The kind of the token at `pos`.
pub open spec fn kind_at(ts: Seq<TokenView>, pos: nat) -> TokenKind {
    token_at(ts, pos).kind
}

/// Whether the punctuator `p` stands at `pos`.
pub open spec fn punctuator_at(ts: Seq<TokenView>, pos: nat, p: Punctuator) -> bool {
    kind_at(ts, pos) == TokenKind::Punctuator(p)
}

/// The error for a token at `pos` that is not of the kind `expected`.
pub open spec fn unexpected(ts: Seq<TokenView>, pos: nat, expected: TokenKind) -> ParseErrorView {
    ParseErrorView::UnexpectedToken {
        expected,
        found: token_at(ts, pos),
        position: token_at(ts, pos).position,
    }
}

/// The position behind the statement terminator at `pos`, if one stands
/// there; `pos` itself if none does.
pub open spec fn skip_terminator(ts: Seq<TokenView>, pos: nat) -> nat {
    if punctuator_at(ts, pos, Punctuator::Semicolon) {
        pos + 1
    } else {
        pos
    }
}

/// Whether a production that started at `pos` and ended at `next` took at
/// least one token and none behind the last. Every successful production
/// does; the grammar asks it where it goes on from `next`.
pub open spec fn advances(ts: Seq<TokenView>, pos: nat, next: nat) -> bool {
    pos < next <= ts.len()
}

/// Whether a token of this kind ends a `return` that has no value.
pub open spec fn ends_statement(kind: TokenKind) -> bool {
    kind == TokenKind::Punctuator(Punctuator::Semicolon) || kind == TokenKind::Punctuator(
        Punctuator::CloseBlock,
    ) || kind == TokenKind::EndOfInput
}

/// The names of a parameter list from `pos` on, up to and including the
/// closing parenthesis; `acc` holds the names read so far.
pub open spec fn parse_parameter_list(ts: Seq<TokenView>, pos: nat, acc: Seq<Seq<char>>) -> Parsed<
    Seq<Seq<char>>,
>
    decreases ts.len() - pos,
{
    if kind_at(ts, pos) != TokenKind::Identifier {
        Err(unexpected(ts, pos, TokenKind::Identifier))
    } else {
        let names = acc.push(token_at(ts, pos).literal);
        if punctuator_at(ts, pos + 1, Punctuator::Comma) {
            parse_parameter_list(ts, pos + 2, names)
        } else if punctuator_at(ts, pos + 1, Punctuator::CloseParen) {
            Ok((names, pos + 2))
        } else {
            Err(unexpected(ts, pos + 1, TokenKind::Punctuator(Punctuator::CloseParen)))
        }
    }
}

/// The parameters of a function literal, from behind the opening
/// parenthesis to behind the closing one.
pub open spec fn parse_parameters(ts: Seq<TokenView>, pos: nat) -> Parsed<Seq<Seq<char>>> {
    if punctuator_at(ts, pos, Punctuator::CloseParen) {
        Ok((Seq::empty(), pos + 1))
    } else {
        parse_parameter_list(ts, pos, Seq::empty())
    }
}

/// An `if` expression whose keyword stands at `pos`: a condition in
/// parentheses, a block, and where `else` follows, a second block.
pub open spec fn parse_if(ts: Seq<TokenView>, pos: nat) -> Parsed<Expr>
    decreases ts.len() - pos, 0nat,
{
    if !punctuator_at(ts, pos + 1, Punctuator::OpenParen) {
        Err(unexpected(ts, pos + 1, TokenKind::Punctuator(Punctuator::OpenParen)))
    } else {
        match parse_expression(ts, pos + 2, LOWEST) {
            Err(e) => Err(e),
            Ok((condition, first)) => {
                if !advances(ts, pos, first) {
                    Err(ParseErrorView::UnterminatedExpression)
                } else if !punctuator_at(ts, first, Punctuator::CloseParen) {
                    Err(unexpected(ts, first, TokenKind::Punctuator(Punctuator::CloseParen)))
                } else {
                    match parse_block(ts, first + 1) {
                        Err(e) => Err(e),
                        Ok((consequence, second)) => {
                            if !advances(ts, pos, second) {
                                Err(ParseErrorView::UnterminatedExpression)
                            } else if kind_at(ts, second) == TokenKind::Keyword(Keyword::Else) {
                                match parse_block(ts, second + 1) {
                                    Err(e) => Err(e),
                                    Ok((alternative, third)) => Ok(
                                        (
                                            Expr::If {
                                                condition: Box::new(condition),
                                                consequence,
                                                alternative: Some(alternative),
                                            },
                                            third,
                                        ),
                                    ),
                                }
                            } else {
                                Ok(
                                    (
                                        Expr::If {
                                            condition: Box::new(condition),
                                            consequence,
                                            alternative: None,
                                        },
                                        second,
                                    ),
                                )
                            }
                        },
                    }
                }
            },
        }
    }
}

/// A function literal whose keyword stands at `pos`: parameter names in
/// parentheses and a block.
pub open spec fn parse_function(ts: Seq<TokenView>, pos: nat) -> Parsed<Expr>
    decreases ts.len() - pos, 0nat,
{
    if !punctuator_at(ts, pos + 1, Punctuator::OpenParen) {
        Err(unexpected(ts, pos + 1, TokenKind::Punctuator(Punctuator::OpenParen)))
    } else {
        match parse_parameters(ts, pos + 2) {
            Err(e) => Err(e),
            Ok((parameters, first)) => {
                if !advances(ts, pos, first) {
                    Err(ParseErrorView::UnterminatedExpression)
                } else {
                    match parse_block(ts, first) {
                        Err(e) => Err(e),
                        Ok((body, second)) => Ok((Expr::Function { parameters, body }, second)),
                    }
                }
            },
        }
    }
}

/// The prefix production at `pos`: a name, a literal, a unary operator and
/// its operand, an expression in parentheses, an `if`, or a function
/// literal. An integer whose numeral does not fit 64 bits has no production.
pub open spec fn parse_prefix(ts: Seq<TokenView>, pos: nat) -> Parsed<Expr>
    decreases ts.len() - pos, 1nat,
{
    let token = token_at(ts, pos);
    match token.kind {
        TokenKind::Identifier => Ok((Expr::Identifier(token.literal), pos + 1)),
        TokenKind::Integer => match numeral_value(token.literal) {
            Some(value) => Ok((Expr::Integer(value as i64), pos + 1)),
            None => Err(ParseErrorView::NoPrefixParser { token }),
        },
        TokenKind::String => Ok((Expr::Str(token.literal), pos + 1)),
        TokenKind::Keyword(Keyword::True) => Ok((Expr::Boolean(true), pos + 1)),
        TokenKind::Keyword(Keyword::False) => Ok((Expr::Boolean(false), pos + 1)),
        TokenKind::Punctuator(Punctuator::Not) | TokenKind::Punctuator(Punctuator::Sub) => {
            match parse_expression(ts, pos + 1, PREFIX) {
                Err(e) => Err(e),
                Ok((right, next)) => Ok(
                    (Expr::Prefix { operator: token.kind, right: Box::new(right) }, next),
                ),
            }
        },
        TokenKind::Punctuator(Punctuator::OpenParen) => {
            match parse_expression(ts, pos + 1, LOWEST) {
                Err(e) => Err(e),
                Ok((inner, next)) => {
                    if punctuator_at(ts, next, Punctuator::CloseParen) {
                        Ok((inner, next + 1))
                    } else {
                        Err(unexpected(ts, next, TokenKind::Punctuator(Punctuator::CloseParen)))
                    }
                },
            }
        },
        TokenKind::Keyword(Keyword::If) => parse_if(ts, pos),
        TokenKind::Keyword(Keyword::Function) => parse_function(ts, pos),
        TokenKind::EndOfInput => Err(ParseErrorView::UnterminatedExpression),
        _ => Err(ParseErrorView::NoPrefixParser { token }),
    }
}

/// The expression at `pos` whose operators all bind more tightly than
/// `min`: a prefix production, then the operators that follow it.
pub open spec fn parse_expression(ts: Seq<TokenView>, pos: nat, min: u8) -> Parsed<Expr>
    decreases ts.len() - pos, 2nat,
{
    match parse_prefix(ts, pos) {
        Err(e) => Err(e),
        Ok((left, next)) => {
            if !advances(ts, pos, next) {
                Err(ParseErrorView::UnterminatedExpression)
            } else {
                parse_infix_loop(ts, next, min, left)
            }
        },
    }
}

/// Folds the operators from `pos` on into `left` for as long as they bind
/// more tightly than `min`: a binary operator takes the expression to its
/// right at the operator's own level, an opening parenthesis takes a list of
/// arguments.
pub open spec fn parse_infix_loop(ts: Seq<TokenView>, pos: nat, min: u8, left: Expr) -> Parsed<
    Expr,
>
    decreases ts.len() - pos, 0nat,
{
    let kind = kind_at(ts, pos);
    if precedence_of(kind) <= min {
        Ok((left, pos))
    } else if kind == TokenKind::Punctuator(Punctuator::OpenParen) {
        match parse_call_arguments(ts, pos + 1) {
            Err(e) => Err(e),
            Ok((arguments, next)) => {
                if !advances(ts, pos, next) {
                    Err(ParseErrorView::UnterminatedExpression)
                } else {
                    parse_infix_loop(
                        ts,
                        next,
                        min,
                        Expr::Call { function: Box::new(left), arguments },
                    )
                }
            },
        }
    } else {
        match parse_expression(ts, pos + 1, precedence_of(kind)) {
            Err(e) => Err(e),
            Ok((right, next)) => {
                if !advances(ts, pos, next) {
                    Err(ParseErrorView::UnterminatedExpression)
                } else {
                    parse_infix_loop(
                        ts,
                        next,
                        min,
                        Expr::Infix {
                            operator: kind,
                            left: Box::new(left),
                            right: Box::new(right),
                        },
                    )
                }
            },
        }
    }
}

/// The arguments of a call, from behind the opening parenthesis to behind
/// the closing one.
pub open spec fn parse_call_arguments(ts: Seq<TokenView>, pos: nat) -> Parsed<Seq<Expr>>
    decreases ts.len() - pos, 4nat,
{
    if punctuator_at(ts, pos, Punctuator::CloseParen) {
        Ok((Seq::empty(), pos + 1))
    } else {
        parse_expression_list(ts, pos, Seq::empty())
    }
}

/// Expressions separated by commas from `pos` on, up to and including the
/// closing parenthesis; `acc` holds those read so far.
pub open spec fn parse_expression_list(ts: Seq<TokenView>, pos: nat, acc: Seq<Expr>) -> Parsed<
    Seq<Expr>,
>
    decreases ts.len() - pos, 3nat,
{
    match parse_expression(ts, pos, LOWEST) {
        Err(e) => Err(e),
        Ok((item, next)) => {
            if !advances(ts, pos, next) {
                Err(ParseErrorView::UnterminatedExpression)
            } else if punctuator_at(ts, next, Punctuator::Comma) {
                parse_expression_list(ts, next + 1, acc.push(item))
            } else if punctuator_at(ts, next, Punctuator::CloseParen) {
                Ok((acc.push(item), next + 1))
            } else {
                Err(unexpected(ts, next, TokenKind::Punctuator(Punctuator::CloseParen)))
            }
        },
    }
}

/// The statement at `pos`: `let`, `return`, or an expression, each with the
/// semicolon behind it where one stands there.
pub open spec fn parse_statement(ts: Seq<TokenView>, pos: nat) -> Parsed<Stmt>
    decreases ts.len() - pos, 3nat,
{
    match kind_at(ts, pos) {
        TokenKind::Keyword(Keyword::Let) => {
            if kind_at(ts, pos + 1) != TokenKind::Identifier {
                Err(unexpected(ts, pos + 1, TokenKind::Identifier))
            } else if !punctuator_at(ts, pos + 2, Punctuator::Assign) {
                Err(unexpected(ts, pos + 2, TokenKind::Punctuator(Punctuator::Assign)))
            } else {
                match parse_expression(ts, pos + 3, LOWEST) {
                    Err(e) => Err(e),
                    Ok((value, next)) => Ok(
                        (
                            Stmt::Let { name: token_at(ts, pos + 1).literal, value },
                            skip_terminator(ts, next),
                        ),
                    ),
                }
            }
        },
        TokenKind::Keyword(Keyword::Return) => {
            if ends_statement(kind_at(ts, pos + 1)) {
                Ok((Stmt::Return { argument: None }, skip_terminator(ts, pos + 1)))
            } else {
                match parse_expression(ts, pos + 1, LOWEST) {
                    Err(e) => Err(e),
                    Ok((value, next)) => Ok(
                        (Stmt::Return { argument: Some(value) }, skip_terminator(ts, next)),
                    ),
                }
            }
        },
        _ => match parse_expression(ts, pos, LOWEST) {
            Err(e) => Err(e),
            Ok((expression, next)) => Ok(
                (Stmt::Expression { expression }, skip_terminator(ts, next)),
            ),
        },
    }
}

/// The statements of a block from `pos` on, up to and including the closing
/// brace; `acc` holds those read so far.
pub open spec fn parse_block_statements(ts: Seq<TokenView>, pos: nat, acc: Seq<Stmt>) -> Parsed<
    Seq<Stmt>,
>
    decreases ts.len() - pos, 4nat,
{
    if punctuator_at(ts, pos, Punctuator::CloseBlock) {
        Ok((acc, pos + 1))
    } else if kind_at(ts, pos) == TokenKind::EndOfInput {
        Err(unexpected(ts, pos, TokenKind::Punctuator(Punctuator::CloseBlock)))
    } else {
        match parse_statement(ts, pos) {
            Err(e) => Err(e),
            Ok((statement, next)) => {
                if !advances(ts, pos, next) {
                    Err(ParseErrorView::UnterminatedExpression)
                } else {
                    parse_block_statements(ts, next, acc.push(statement))
                }
            },
        }
    }
}

/// A block: statements between braces, the opening brace at `pos`.
pub open spec fn parse_block(ts: Seq<TokenView>, pos: nat) -> Parsed<Seq<Stmt>>
    decreases ts.len() - pos, 5nat,
{
    if !punctuator_at(ts, pos, Punctuator::OpenBlock) {
        Err(unexpected(ts, pos, TokenKind::Punctuator(Punctuator::OpenBlock)))
    } else {
        parse_block_statements(ts, pos + 1, Seq::empty())
    }
}

/// The statements from `pos` to the end of the input; `acc` holds those
/// read so far.
pub open spec fn parse_statements(ts: Seq<TokenView>, pos: nat, acc: Seq<Stmt>) -> Result<
    Seq<Stmt>,
    ParseErrorView,
>
    decreases ts.len() - pos,
{
    if kind_at(ts, pos) == TokenKind::EndOfInput {
        Ok(acc)
    } else {
        match parse_statement(ts, pos) {
            Err(e) => Err(e),
            Ok((statement, next)) => {
                if !advances(ts, pos, next) {
                    Err(ParseErrorView::UnterminatedExpression)
                } else {
                    parse_statements(ts, next, acc.push(statement))
                }
            },
        }
    }
}

/// The program that a run of tokens spells: its statements up to the end of
/// the input, or the first error.
pub open spec fn parse_program(ts: Seq<TokenView>) -> Result<Seq<Stmt>, ParseErrorView> {
    parse_statements(ts, 0, Seq::empty())
}

} // verus!
