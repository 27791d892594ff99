//! The parser: tokens in, syntax tree out.
//!
//! Each function here computes the function of the same name in
//! [`grammar`], on the views of its tokens. Parsing stops at the first
//! error and yields no part of a tree with it. The parser recurses along the
//! nesting of the source: how deeply a source may nest is left to the stack
//! of the machine.

pub mod arithmetic;
pub mod context;
pub mod grammar;
pub mod laws;
pub mod node;
pub mod render;

use vstd::prelude::*;
use crate::lexer::{lex, tokens_from, Lexer};
use crate::parser::grammar::{ParseErrorView, Parsed};
use crate::parser::node::{
    lemma_expressions_view_empty,
    lemma_expressions_view_push,
    lemma_names_view_push,
    lemma_statements_view_empty,
    lemma_statements_view_push,
    expressions_view,
    names_view,
    statements_view,
    BlockStatement,
    CallExpression,
    Expr,
    Expression,
    ExpressionStatement,
    FunctionLiteral,
    IfExpression,
    InfixExpression,
    LetStatement,
    PrefixExpression,
    Program,
    ReturnStatement,
    Statement,
    Stmt,
};
use crate::text::parse_numeral;
use crate::token::{token_views, Keyword, Punctuator, Token, TokenKind, LOWEST, PREFIX};

verus! {

/// Why a run of tokens is no program.
#[derive(Debug, PartialEq, Eq)]
pub enum ParseError {
    /// A token of the kind `expected` was needed where `found` stands.
    UnexpectedToken { expected: TokenKind, found: Token, position: usize },
    /// No expression starts with this token.
    NoPrefixParser { token: Token },
    /// No operator production exists for this token. The parser never
    /// reports it: every kind with a binding strength above the lowest has
    /// its production.
    NoInfixParser { token: Token },
    /// The input ends where an expression must stand.
    UnterminatedExpression,
}

impl View for ParseError {
    type V = ParseErrorView;

    open spec fn view(&self) -> ParseErrorView {
        match self {
            ParseError::UnexpectedToken { expected, found, position } => {
                ParseErrorView::UnexpectedToken {
                    expected: *expected,
                    found: found@,
                    position: *position as nat,
                }
            },
            ParseError::NoPrefixParser { token } => ParseErrorView::NoPrefixParser {
                token: token@,
            },
            ParseError::NoInfixParser { token } => ParseErrorView::NoInfixParser { token: token@ },
            ParseError::UnterminatedExpression => ParseErrorView::UnterminatedExpression,
        }
    }
}

/// The mathematical content of the result of parsing an expression.
pub open spec fn expression_outcome(r: Result<(Expression, usize), ParseError>) -> Parsed<Expr> {
    match r {
        Ok((e, next)) => Ok((e@, next as nat)),
        Err(e) => Err(e@),
    }
}

/// The mathematical content of the result of parsing a statement.
pub open spec fn statement_outcome(r: Result<(Statement, usize), ParseError>) -> Parsed<Stmt> {
    match r {
        Ok((s, next)) => Ok((s@, next as nat)),
        Err(e) => Err(e@),
    }
}

/// The mathematical content of the result of parsing a block.
pub open spec fn block_outcome(r: Result<(BlockStatement, usize), ParseError>) -> Parsed<
    Seq<Stmt>,
> {
    match r {
        Ok((b, next)) => Ok((b@, next as nat)),
        Err(e) => Err(e@),
    }
}

/// The mathematical content of the result of parsing a list of expressions.
pub open spec fn arguments_outcome(r: Result<(Vec<Expression>, usize), ParseError>) -> Parsed<
    Seq<Expr>,
> {
    match r {
        Ok((list, next)) => Ok((expressions_view(list), next as nat)),
        Err(e) => Err(e@),
    }
}

/// The mathematical content of the result of parsing a list of names.
pub open spec fn names_outcome(r: Result<(Vec<String>, usize), ParseError>) -> Parsed<
    Seq<Seq<char>>,
> {
    match r {
        Ok((names, next)) => Ok((names_view(names@), next as nat)),
        Err(e) => Err(e@),
    }
}

/// The mathematical content of the result of parsing a program.
pub open spec fn program_outcome(r: Result<Program, ParseError>) -> Result<
    Seq<Stmt>,
    ParseErrorView,
> {
    match r {
        Ok(program) => Ok(program@),
        Err(e) => Err(e@),
    }
}

/// The program that a source text spells, or the first error.
pub open spec fn parse_source(s: Seq<char>) -> Result<Seq<Stmt>, ParseErrorView> {
    grammar::parse_program(lex(s))
}

fn peek_kind(tokens: &Vec<Token>, pos: usize) -> (kind: TokenKind)
    ensures
        kind == grammar::kind_at(token_views(tokens@), pos as nat),
        kind != TokenKind::EndOfInput ==> pos < tokens.len(),
{
    if pos < tokens.len() {
        tokens[pos].kind
    } else {
        TokenKind::EndOfInput
    }
}

fn peek_token(tokens: &Vec<Token>, pos: usize) -> (token: Token)
    ensures
        token@ == grammar::token_at(token_views(tokens@), pos as nat),
{
    if pos < tokens.len() {
        tokens[pos].duplicate()
    } else {
        Token::new(TokenKind::EndOfInput, String::new(), 0)
    }
}

fn stands_at(tokens: &Vec<Token>, pos: usize, p: Punctuator) -> (r: bool)
    ensures
        r == grammar::punctuator_at(token_views(tokens@), pos as nat, p),
        r ==> pos < tokens.len(),
{
    match peek_kind(tokens, pos) {
        TokenKind::Punctuator(q) => q == p,
        _ => false,
    }
}

fn unexpected_token(tokens: &Vec<Token>, pos: usize, expected: TokenKind) -> (e: ParseError)
    ensures
        e@ == grammar::unexpected(token_views(tokens@), pos as nat, expected),
{
    let found = peek_token(tokens, pos);
    let position = found.position;
    ParseError::UnexpectedToken { expected, found, position }
}

fn after_terminator(tokens: &Vec<Token>, pos: usize) -> (next: usize)
    ensures
        next == grammar::skip_terminator(token_views(tokens@), pos as nat),
        pos <= next,
        pos <= tokens.len() ==> next <= tokens.len(),
{
    if stands_at(tokens, pos, Punctuator::Semicolon) {
        pos + 1
    } else {
        pos
    }
}

/// The parameters of a function literal, from behind the opening
/// parenthesis to behind the closing one.
pub fn parse_parameters(tokens: &Vec<Token>, pos: usize) -> (r: Result<
    (Vec<String>, usize),
    ParseError,
>)
    ensures
        names_outcome(r) == grammar::parse_parameters(token_views(tokens@), pos as nat),
        r matches Ok((_, next)) ==> pos < next <= tokens.len(),
{
    let ghost ts = token_views(tokens@);
    let mut names: Vec<String> = Vec::new();
    assert(names_view(names@) =~= Seq::<Seq<char>>::empty());
    if stands_at(tokens, pos, Punctuator::CloseParen) {
        return Ok((names, pos + 1));
    }
    let mut cur: usize = pos;
    loop
        invariant
            pos <= cur,
            cur == pos || cur <= tokens.len(),
            ts == token_views(tokens@),
            grammar::parse_parameter_list(ts, cur as nat, names_view(names@))
                == grammar::parse_parameters(ts, pos as nat),
        decreases tokens.len() - cur,
    {
        match peek_kind(tokens, cur) {
            TokenKind::Identifier => {},
            _ => {
                return Err(unexpected_token(tokens, cur, TokenKind::Identifier));
            },
        }
        let ghost before = names@;
        let name = tokens[cur].literal.clone();
        proof {
            lemma_names_view_push(before, name);
        }
        names.push(name);
        if stands_at(tokens, cur + 1, Punctuator::Comma) {
            cur = cur + 2;
        } else if stands_at(tokens, cur + 1, Punctuator::CloseParen) {
            return Ok((names, cur + 2));
        } else {
            return Err(
                unexpected_token(tokens, cur + 1, TokenKind::Punctuator(Punctuator::CloseParen)),
            );
        }
    }
}

/// An `if` expression whose keyword stands at `pos`.
#[verifier::rlimit(40)]
pub fn parse_if(tokens: &Vec<Token>, pos: usize) -> (r: Result<(Expression, usize), ParseError>)
    ensures
        expression_outcome(r) == grammar::parse_if(token_views(tokens@), pos as nat),
        r matches Ok((_, next)) ==> pos < next <= tokens.len(),
    decreases tokens.len() - pos, 0nat,
{
    if pos >= tokens.len() {
        return Err(
            unexpected_token(tokens, tokens.len(), TokenKind::Punctuator(Punctuator::OpenParen)),
        );
    }
    if !stands_at(tokens, pos + 1, Punctuator::OpenParen) {
        return Err(unexpected_token(tokens, pos + 1, TokenKind::Punctuator(Punctuator::OpenParen)));
    }
    let (condition, first) = match parse_expression(tokens, pos + 2, LOWEST) {
        Ok(x) => x,
        Err(e) => {
            return Err(e);
        },
    };
    if !stands_at(tokens, first, Punctuator::CloseParen) {
        return Err(unexpected_token(tokens, first, TokenKind::Punctuator(Punctuator::CloseParen)));
    }
    let (consequence, second) = match parse_block(tokens, first + 1) {
        Ok(x) => x,
        Err(e) => {
            return Err(e);
        },
    };
    match peek_kind(tokens, second) {
        TokenKind::Keyword(Keyword::Else) => {
            let (alternative, third) = match parse_block(tokens, second + 1) {
                Ok(x) => x,
                Err(e) => {
                    return Err(e);
                },
            };
            Ok(
                (
                    Expression::If(
                        Box::new(
                            IfExpression { condition, consequence, alternative: Some(alternative) },
                        ),
                    ),
                    third,
                ),
            )
        },
        _ => Ok(
            (
                Expression::If(Box::new(IfExpression { condition, consequence, alternative: None })),
                second,
            ),
        ),
    }
}

/// A function literal whose keyword stands at `pos`.
#[verifier::rlimit(40)]
pub fn parse_function(tokens: &Vec<Token>, pos: usize) -> (r: Result<
    (Expression, usize),
    ParseError,
>)
    ensures
        expression_outcome(r) == grammar::parse_function(token_views(tokens@), pos as nat),
        r matches Ok((_, next)) ==> pos < next <= tokens.len(),
    decreases tokens.len() - pos, 0nat,
{
    if pos >= tokens.len() {
        return Err(
            unexpected_token(tokens, tokens.len(), TokenKind::Punctuator(Punctuator::OpenParen)),
        );
    }
    if !stands_at(tokens, pos + 1, Punctuator::OpenParen) {
        return Err(unexpected_token(tokens, pos + 1, TokenKind::Punctuator(Punctuator::OpenParen)));
    }
    let (parameters, first) = match parse_parameters(tokens, pos + 2) {
        Ok(x) => x,
        Err(e) => {
            return Err(e);
        },
    };
    let (body, second) = match parse_block(tokens, first) {
        Ok(x) => x,
        Err(e) => {
            return Err(e);
        },
    };
    Ok((Expression::Function(Box::new(FunctionLiteral { parameters, body })), second))
}

/// The prefix production at `pos`.
#[verifier::rlimit(40)]
pub fn parse_prefix(tokens: &Vec<Token>, pos: usize) -> (r: Result<(Expression, usize), ParseError>)
    ensures
        expression_outcome(r) == grammar::parse_prefix(token_views(tokens@), pos as nat),
        r matches Ok((_, next)) ==> pos < next <= tokens.len(),
    decreases tokens.len() - pos, 1nat,
{
    if pos >= tokens.len() {
        return Err(ParseError::UnterminatedExpression);
    }
    let token = &tokens[pos];
    match token.kind {
        TokenKind::Identifier => Ok((Expression::Identifier(token.literal.clone()), pos + 1)),
        TokenKind::Integer => match parse_numeral(token.literal.as_str()) {
            Some(value) => Ok((Expression::Integer(value), pos + 1)),
            None => Err(ParseError::NoPrefixParser { token: token.duplicate() }),
        },
        TokenKind::String => Ok((Expression::String(token.literal.clone()), pos + 1)),
        TokenKind::Keyword(Keyword::True) => Ok((Expression::Boolean(true), pos + 1)),
        TokenKind::Keyword(Keyword::False) => Ok((Expression::Boolean(false), pos + 1)),
        TokenKind::Punctuator(Punctuator::Not) | TokenKind::Punctuator(Punctuator::Sub) => {
            match parse_expression(tokens, pos + 1, PREFIX) {
                Err(e) => Err(e),
                Ok((right, next)) => Ok(
                    (
                        Expression::Prefix(
                            Box::new(PrefixExpression { operator: token.kind, right }),
                        ),
                        next,
                    ),
                ),
            }
        },
        TokenKind::Punctuator(Punctuator::OpenParen) => {
            match parse_expression(tokens, pos + 1, LOWEST) {
                Err(e) => Err(e),
                Ok((inner, next)) => {
                    if stands_at(tokens, next, Punctuator::CloseParen) {
                        Ok((inner, next + 1))
                    } else {
                        Err(
                            unexpected_token(
                                tokens,
                                next,
                                TokenKind::Punctuator(Punctuator::CloseParen),
                            ),
                        )
                    }
                },
            }
        },
        TokenKind::Keyword(Keyword::If) => parse_if(tokens, pos),
        TokenKind::Keyword(Keyword::Function) => parse_function(tokens, pos),
        TokenKind::EndOfInput => Err(ParseError::UnterminatedExpression),
        _ => Err(ParseError::NoPrefixParser { token: token.duplicate() }),
    }
}

/// The expression at `pos` whose operators all bind more tightly than
/// `min`.
#[verifier::rlimit(40)]
#[verifier::loop_isolation(false)]
pub fn parse_expression(tokens: &Vec<Token>, pos: usize, min: u8) -> (r: Result<
    (Expression, usize),
    ParseError,
>)
    ensures
        expression_outcome(r) == grammar::parse_expression(token_views(tokens@), pos as nat, min),
        r matches Ok((_, next)) ==> pos < next <= tokens.len(),
    decreases tokens.len() - pos, 2nat,
{
    let ghost ts = token_views(tokens@);
    let (mut left, mut cur) = match parse_prefix(tokens, pos) {
        Ok(x) => x,
        Err(e) => {
            return Err(e);
        },
    };
    loop
        invariant
            pos < cur <= tokens.len(),
            grammar::parse_infix_loop(ts, cur as nat, min, left@) == grammar::parse_expression(
                ts,
                pos as nat,
                min,
            ),
        decreases tokens.len() - cur,
    {
        let kind = peek_kind(tokens, cur);
        let level = kind.precedence();
        if level <= min {
            return Ok((left, cur));
        }
        if stands_at(tokens, cur, Punctuator::OpenParen) {
            let (arguments, next) = match parse_call_arguments(tokens, cur + 1) {
                Ok(x) => x,
                Err(e) => {
                    return Err(e);
                },
            };
            left = Expression::Call(Box::new(CallExpression { function: left, arguments }));
            cur = next;
        } else {
            let (right, next) = match parse_expression(tokens, cur + 1, level) {
                Ok(x) => x,
                Err(e) => {
                    return Err(e);
                },
            };
            left = Expression::Infix(Box::new(InfixExpression { left, operator: kind, right }));
            cur = next;
        }
    }
}

/// The arguments of a call, from behind the opening parenthesis to behind
/// the closing one.
#[verifier::rlimit(40)]
#[verifier::loop_isolation(false)]
pub fn parse_call_arguments(tokens: &Vec<Token>, pos: usize) -> (r: Result<
    (Vec<Expression>, usize),
    ParseError,
>)
    ensures
        arguments_outcome(r) == grammar::parse_call_arguments(token_views(tokens@), pos as nat),
        r matches Ok((_, next)) ==> pos < next <= tokens.len(),
    decreases tokens.len() - pos, 4nat,
{
    let ghost ts = token_views(tokens@);
    let mut list: Vec<Expression> = Vec::new();
    proof {
        lemma_expressions_view_empty(list);
    }
    if stands_at(tokens, pos, Punctuator::CloseParen) {
        return Ok((list, pos + 1));
    }
    let mut cur: usize = pos;
    loop
        invariant
            pos <= cur,
            cur == pos || cur <= tokens.len(),
            grammar::parse_expression_list(ts, cur as nat, expressions_view(list))
                == grammar::parse_call_arguments(ts, pos as nat),
        decreases tokens.len() - cur,
    {
        let (item, next) = match parse_expression(tokens, cur, LOWEST) {
            Ok(x) => x,
            Err(e) => {
                return Err(e);
            },
        };
        let ghost before = list;
        let ghost pushed = item;
        list.push(item);
        proof {
            lemma_expressions_view_push(before, list, pushed);
        }
        if stands_at(tokens, next, Punctuator::Comma) {
            cur = next + 1;
        } else if stands_at(tokens, next, Punctuator::CloseParen) {
            return Ok((list, next + 1));
        } else {
            return Err(
                unexpected_token(tokens, next, TokenKind::Punctuator(Punctuator::CloseParen)),
            );
        }
    }
}

/// The statement at `pos`, with the semicolon behind it where one stands
/// there.
#[verifier::rlimit(40)]
pub fn parse_statement(tokens: &Vec<Token>, pos: usize) -> (r: Result<
    (Statement, usize),
    ParseError,
>)
    ensures
        statement_outcome(r) == grammar::parse_statement(token_views(tokens@), pos as nat),
        r matches Ok((_, next)) ==> pos < next <= tokens.len(),
    decreases tokens.len() - pos, 3nat,
{
    match peek_kind(tokens, pos) {
        TokenKind::Keyword(Keyword::Let) => {
            match peek_kind(tokens, pos + 1) {
                TokenKind::Identifier => {},
                _ => {
                    return Err(unexpected_token(tokens, pos + 1, TokenKind::Identifier));
                },
            }
            if !stands_at(tokens, pos + 2, Punctuator::Assign) {
                return Err(
                    unexpected_token(tokens, pos + 2, TokenKind::Punctuator(Punctuator::Assign)),
                );
            }
            match parse_expression(tokens, pos + 3, LOWEST) {
                Err(e) => Err(e),
                Ok((value, next)) => {
                    let name = tokens[pos + 1].literal.clone();
                    Ok(
                        (
                            Statement::Let(LetStatement { name, value }),
                            after_terminator(tokens, next),
                        ),
                    )
                },
            }
        },
        TokenKind::Keyword(Keyword::Return) => {
            let bare = match peek_kind(tokens, pos + 1) {
                TokenKind::Punctuator(Punctuator::Semicolon) => true,
                TokenKind::Punctuator(Punctuator::CloseBlock) => true,
                TokenKind::EndOfInput => true,
                _ => false,
            };
            if bare {
                Ok(
                    (
                        Statement::Return(ReturnStatement { value: None }),
                        after_terminator(tokens, pos + 1),
                    ),
                )
            } else {
                match parse_expression(tokens, pos + 1, LOWEST) {
                    Err(e) => Err(e),
                    Ok((value, next)) => Ok(
                        (
                            Statement::Return(ReturnStatement { value: Some(value) }),
                            after_terminator(tokens, next),
                        ),
                    ),
                }
            }
        },
        _ => match parse_expression(tokens, pos, LOWEST) {
            Err(e) => Err(e),
            Ok((expression, next)) => Ok(
                (
                    Statement::Expression(ExpressionStatement { expression }),
                    after_terminator(tokens, next),
                ),
            ),
        },
    }
}

/// A block: statements between braces, the opening brace at `pos`.
#[verifier::rlimit(40)]
#[verifier::loop_isolation(false)]
pub fn parse_block(tokens: &Vec<Token>, pos: usize) -> (r: Result<
    (BlockStatement, usize),
    ParseError,
>)
    ensures
        block_outcome(r) == grammar::parse_block(token_views(tokens@), pos as nat),
        r matches Ok((_, next)) ==> pos < next <= tokens.len(),
    decreases tokens.len() - pos, 5nat,
{
    let ghost ts = token_views(tokens@);
    if !stands_at(tokens, pos, Punctuator::OpenBlock) {
        return Err(unexpected_token(tokens, pos, TokenKind::Punctuator(Punctuator::OpenBlock)));
    }
    let mut statements: Vec<Statement> = Vec::new();
    proof {
        lemma_statements_view_empty(statements);
    }
    let mut cur: usize = pos + 1;
    loop
        invariant
            pos < cur <= tokens.len(),
            grammar::parse_block_statements(ts, cur as nat, statements_view(statements))
                == grammar::parse_block(ts, pos as nat),
        decreases tokens.len() - cur,
    {
        if stands_at(tokens, cur, Punctuator::CloseBlock) {
            return Ok((BlockStatement { statements }, cur + 1));
        }
        match peek_kind(tokens, cur) {
            TokenKind::EndOfInput => {
                return Err(
                    unexpected_token(tokens, cur, TokenKind::Punctuator(Punctuator::CloseBlock)),
                );
            },
            _ => {},
        }
        let (statement, next) = match parse_statement(tokens, cur) {
            Ok(x) => x,
            Err(e) => {
                return Err(e);
            },
        };
        let ghost before = statements;
        let ghost pushed = statement;
        statements.push(statement);
        proof {
            lemma_statements_view_push(before, statements, pushed);
        }
        cur = next;
    }
}

/// The program that a run of tokens spells: its statements up to the end
/// of the input, or the first error.
pub fn parse_tokens(tokens: &Vec<Token>) -> (r: Result<Program, ParseError>)
    ensures
        program_outcome(r) == grammar::parse_program(token_views(tokens@)),
{
    let ghost ts = token_views(tokens@);
    let mut body: Vec<Statement> = Vec::new();
    proof {
        lemma_statements_view_empty(body);
    }
    let mut cur: usize = 0;
    loop
        invariant
            ts == token_views(tokens@),
            cur <= tokens.len(),
            grammar::parse_statements(ts, cur as nat, statements_view(body))
                == grammar::parse_program(ts),
        decreases tokens.len() - cur,
    {
        match peek_kind(tokens, cur) {
            TokenKind::EndOfInput => {
                return Ok(Program { body });
            },
            _ => {},
        }
        let (statement, next) = match parse_statement(tokens, cur) {
            Ok(x) => x,
            Err(e) => {
                return Err(e);
            },
        };
        let ghost before = body;
        let ghost pushed = statement;
        body.push(statement);
        proof {
            lemma_statements_view_push(before, body, pushed);
        }
        cur = next;
    }
}

/// The program that a source text spells, or the first error.
pub fn parse(input: &str) -> (r: Result<Program, ParseError>)
    ensures
        program_outcome(r) == parse_source(input@),
{
    let tokens = crate::lexer::tokenize(input);
    parse_tokens(&tokens)
}

/// A parser over the tokens of one source text.
pub struct Parser {
    tokens: Vec<Token>,
}

impl Parser {
    /// The tokens that the parser reads.
    pub closed spec fn tokens(&self) -> Seq<crate::token::TokenView> {
        token_views(self.tokens@)
    }

    /// A parser over the tokens that `lexer` still has to give.
    pub fn new(lexer: Lexer) -> (r: Parser)
        ensures
            r.tokens() == tokens_from(lexer.source(), lexer.offset()),
    {
        Parser { tokens: lexer.tokenize() }
    }

    /// The program that the tokens spell, or the first error.
    pub fn parse_program(&mut self) -> (r: Result<Program, ParseError>)
        ensures
            final(self).tokens() == old(self).tokens(),
            program_outcome(r) == grammar::parse_program(old(self).tokens()),
    {
        parse_tokens(&self.tokens)
    }
}

} // verus!
