//! Tokens: the vocabulary shared by the lexer and the parser.

use vstd::prelude::*;

verus! {

/// Reserved words.
#[derive(Clone, Copy, Debug, PartialEq, Eq, Hash, Structural)]
pub enum Keyword {
    Let,
    Return,
    If,
    Else,
    Function,
    True,
    False,
}

/// Operators and delimiters.
#[derive(Clone, Copy, Debug, PartialEq, Eq, Hash, Structural)]
pub enum Punctuator {
    Assign,
    Add,
    Sub,
    Mul,
    Div,
    Not,
    LessThan,
    GreaterThan,
    Eq,
    NotEq,
    Comma,
    Semicolon,
    OpenParen,
    CloseParen,
    OpenBlock,
    CloseBlock,
}

/// What a token is; its text, where it has one of its own, is the token's literal.
#[derive(Clone, Copy, Debug, PartialEq, Eq, Hash, Structural)]
pub enum TokenKind {
    Identifier,
    Integer,
    String,
    Keyword(Keyword),
    Punctuator(Punctuator),
    /// Text that starts no token: a stray character or an unclosed string.
    Illegal,
    EndOfInput,
}

/// Binding strength of the lowest level: no operator binds here.
pub const LOWEST: u8 = 0;

/// Binding strength of `==` and `!=`.
pub const EQUALS: u8 = 1;

/// Binding strength of `<` and `>`.
pub const LESS_GREATER: u8 = 2;

/// Binding strength of `+` and `-`.
pub const SUM: u8 = 3;

/// Binding strength of `*` and `/`.
pub const PRODUCT: u8 = 4;

/// Binding strength of the unary operators `!` and `-`.
pub const PREFIX: u8 = 5;

/// Binding strength of the call parenthesis.
pub const CALL: u8 = 6;

/// The text of a keyword.
pub open spec fn keyword_text(k: Keyword) -> Seq<char> {
    match k {
        Keyword::Let => "let"@,
        Keyword::Return => "return"@,
        Keyword::If => "if"@,
        Keyword::Else => "else"@,
        Keyword::Function => "fn"@,
        Keyword::True => "true"@,
        Keyword::False => "false"@,
    }
}

/// The text of a punctuator.
pub open spec fn punctuator_text(p: Punctuator) -> Seq<char> {
    match p {
        Punctuator::Assign => "="@,
        Punctuator::Add => "+"@,
        Punctuator::Sub => "-"@,
        Punctuator::Mul => "*"@,
        Punctuator::Div => "/"@,
        Punctuator::Not => "!"@,
        Punctuator::LessThan => "<"@,
        Punctuator::GreaterThan => ">"@,
        Punctuator::Eq => "=="@,
        Punctuator::NotEq => "!="@,
        Punctuator::Comma => ","@,
        Punctuator::Semicolon => ";"@,
        Punctuator::OpenParen => "("@,
        Punctuator::CloseParen => ")"@,
        Punctuator::OpenBlock => "{"@,
        Punctuator::CloseBlock => "}"@,
    }
}

/// How a token kind is written where it stands as an operator in a message
/// or in rendered source: the text of a keyword or punctuator, a word for
/// the kinds that have no fixed text.
pub open spec fn kind_text(kind: TokenKind) -> Seq<char> {
    match kind {
        TokenKind::Identifier => "identifier"@,
        TokenKind::Integer => "integer"@,
        TokenKind::String => "string"@,
        TokenKind::Keyword(k) => keyword_text(k),
        TokenKind::Punctuator(p) => punctuator_text(p),
        TokenKind::Illegal => "illegal"@,
        TokenKind::EndOfInput => "end of input"@,
    }
}

/// Binding strength of a token kind as an infix or postfix operator;
/// `LOWEST` for every kind that is neither.
pub open spec fn precedence_of(kind: TokenKind) -> u8 {
    match kind {
        TokenKind::Punctuator(Punctuator::Eq) => EQUALS,
        TokenKind::Punctuator(Punctuator::NotEq) => EQUALS,
        TokenKind::Punctuator(Punctuator::LessThan) => LESS_GREATER,
        TokenKind::Punctuator(Punctuator::GreaterThan) => LESS_GREATER,
        TokenKind::Punctuator(Punctuator::Add) => SUM,
        TokenKind::Punctuator(Punctuator::Sub) => SUM,
        TokenKind::Punctuator(Punctuator::Mul) => PRODUCT,
        TokenKind::Punctuator(Punctuator::Div) => PRODUCT,
        TokenKind::Punctuator(Punctuator::OpenParen) => CALL,
        _ => LOWEST,
    }
}

impl Keyword {
    /// The keyword as it is written.
    pub fn text(&self) -> (r: &'static str)
        ensures
            r@ == keyword_text(*self),
    {
        match self {
            Keyword::Let => "let",
            Keyword::Return => "return",
            Keyword::If => "if",
            Keyword::Else => "else",
            Keyword::Function => "fn",
            Keyword::True => "true",
            Keyword::False => "false",
        }
    }
}

impl Punctuator {
    /// The punctuator as it is written.
    pub fn text(&self) -> (r: &'static str)
        ensures
            r@ == punctuator_text(*self),
    {
        match self {
            Punctuator::Assign => "=",
            Punctuator::Add => "+",
            Punctuator::Sub => "-",
            Punctuator::Mul => "*",
            Punctuator::Div => "/",
            Punctuator::Not => "!",
            Punctuator::LessThan => "<",
            Punctuator::GreaterThan => ">",
            Punctuator::Eq => "==",
            Punctuator::NotEq => "!=",
            Punctuator::Comma => ",",
            Punctuator::Semicolon => ";",
            Punctuator::OpenParen => "(",
            Punctuator::CloseParen => ")",
            Punctuator::OpenBlock => "{",
            Punctuator::CloseBlock => "}",
        }
    }
}

impl TokenKind {
    /// The kind of the given punctuator.
    pub fn punctuator(p: Punctuator) -> (r: TokenKind)
        ensures
            r == TokenKind::Punctuator(p),
    {
        TokenKind::Punctuator(p)
    }

    /// The kind of the given keyword.
    pub fn keyword(k: Keyword) -> (r: TokenKind)
        ensures
            r == TokenKind::Keyword(k),
    {
        TokenKind::Keyword(k)
    }

    /// The kind as it is written in messages and rendered source.
    pub fn text(&self) -> (r: &'static str)
        ensures
            r@ == kind_text(*self),
    {
        match self {
            TokenKind::Identifier => "identifier",
            TokenKind::Integer => "integer",
            TokenKind::String => "string",
            TokenKind::Keyword(k) => k.text(),
            TokenKind::Punctuator(p) => p.text(),
            TokenKind::Illegal => "illegal",
            TokenKind::EndOfInput => "end of input",
        }
    }

    /// Binding strength as an infix or postfix operator.
    pub fn precedence(&self) -> (r: u8)
        ensures
            r == precedence_of(*self),
    {
        match self {
            TokenKind::Punctuator(Punctuator::Eq) => EQUALS,
            TokenKind::Punctuator(Punctuator::NotEq) => EQUALS,
            TokenKind::Punctuator(Punctuator::LessThan) => LESS_GREATER,
            TokenKind::Punctuator(Punctuator::GreaterThan) => LESS_GREATER,
            TokenKind::Punctuator(Punctuator::Add) => SUM,
            TokenKind::Punctuator(Punctuator::Sub) => SUM,
            TokenKind::Punctuator(Punctuator::Mul) => PRODUCT,
            TokenKind::Punctuator(Punctuator::Div) => PRODUCT,
            TokenKind::Punctuator(Punctuator::OpenParen) => CALL,
            _ => LOWEST,
        }
    }
}

/// A token: its kind, its text, and the index of its first character in the
/// source.
#[derive(Clone, Debug, PartialEq, Eq, Hash)]
pub struct Token {
    pub kind: TokenKind,
    pub literal: String,
    pub position: usize,
}

/// The mathematical content of a token.
pub struct TokenView {
    pub kind: TokenKind,
    pub literal: Seq<char>,
    pub position: nat,
}

impl View for Token {
    type V = TokenView;

    open spec fn view(&self) -> TokenView {
        TokenView { kind: self.kind, literal: self.literal@, position: self.position as nat }
    }
}

impl Token {
    /// A token of the given kind, text and position.
    pub fn new(kind: TokenKind, literal: String, position: usize) -> (r: Token)
        ensures
            r.kind == kind,
            r.literal == literal,
            r.position == position,
    {
        Token { kind, literal, position }
    }

    /// An independent copy of the token.
    pub fn duplicate(&self) -> (r: Token)
        ensures
            r == *self,
    {
        Token { kind: self.kind, literal: self.literal.clone(), position: self.position }
    }
}

/// The views of a run of tokens, in order.
pub open spec fn token_views(tokens: Seq<Token>) -> Seq<TokenView> {
    Seq::new(tokens.len(), |i: int| tokens[i]@)
}

} // verus!
