use monkey::lexer::{tokenize, Lexer};
use monkey::token::{Keyword, Punctuator, Token, TokenKind};

fn kinds(input: &str) -> Vec<TokenKind> {
    tokenize(input).iter().map(|t| t.kind).collect()
}

fn literals(input: &str) -> Vec<String> {
    tokenize(input).iter().map(|t| t.literal.clone()).collect()
}

#[test]
fn empty_source_is_end_of_input() {
    let tokens = tokenize("");
    assert_eq!(tokens, vec![Token::new(TokenKind::EndOfInput, String::new(), 0)]);
}

#[test]
fn blank_source_is_end_of_input_behind_the_blanks() {
    let tokens = tokenize(" \t\r\n ");
    assert_eq!(tokens, vec![Token::new(TokenKind::EndOfInput, String::new(), 5)]);
}

#[test]
fn let_statement_tokens() {
    let tokens = tokenize("let five = 5;");
    assert_eq!(
        tokens,
        vec![
            Token::new(TokenKind::Keyword(Keyword::Let), "let".to_string(), 0),
            Token::new(TokenKind::Identifier, "five".to_string(), 4),
            Token::new(TokenKind::Punctuator(Punctuator::Assign), "=".to_string(), 9),
            Token::new(TokenKind::Integer, "5".to_string(), 11),
            Token::new(TokenKind::Punctuator(Punctuator::Semicolon), ";".to_string(), 12),
            Token::new(TokenKind::EndOfInput, String::new(), 13),
        ]
    );
}

#[test]
fn every_keyword_is_recognised() {
    assert_eq!(
        kinds("let return if else fn true false"),
        vec![
            TokenKind::Keyword(Keyword::Let),
            TokenKind::Keyword(Keyword::Return),
            TokenKind::Keyword(Keyword::If),
            TokenKind::Keyword(Keyword::Else),
            TokenKind::Keyword(Keyword::Function),
            TokenKind::Keyword(Keyword::True),
            TokenKind::Keyword(Keyword::False),
            TokenKind::EndOfInput,
        ]
    );
}

#[test]
fn words_that_only_start_like_keywords_are_identifiers() {
    assert_eq!(
        kinds("letter iffy fnord _x x1 truefalse"),
        vec![
            TokenKind::Identifier,
            TokenKind::Identifier,
            TokenKind::Identifier,
            TokenKind::Identifier,
            TokenKind::Identifier,
            TokenKind::Identifier,
            TokenKind::EndOfInput,
        ]
    );
    assert_eq!(
        literals("letter iffy fnord _x x1 truefalse"),
        vec!["letter", "iffy", "fnord", "_x", "x1", "truefalse", ""]
    );
}

#[test]
fn every_punctuator_is_recognised() {
    assert_eq!(
        kinds("= + - * / ! < > == != , ; ( ) { }"),
        vec![
            TokenKind::Punctuator(Punctuator::Assign),
            TokenKind::Punctuator(Punctuator::Add),
            TokenKind::Punctuator(Punctuator::Sub),
            TokenKind::Punctuator(Punctuator::Mul),
            TokenKind::Punctuator(Punctuator::Div),
            TokenKind::Punctuator(Punctuator::Not),
            TokenKind::Punctuator(Punctuator::LessThan),
            TokenKind::Punctuator(Punctuator::GreaterThan),
            TokenKind::Punctuator(Punctuator::Eq),
            TokenKind::Punctuator(Punctuator::NotEq),
            TokenKind::Punctuator(Punctuator::Comma),
            TokenKind::Punctuator(Punctuator::Semicolon),
            TokenKind::Punctuator(Punctuator::OpenParen),
            TokenKind::Punctuator(Punctuator::CloseParen),
            TokenKind::Punctuator(Punctuator::OpenBlock),
            TokenKind::Punctuator(Punctuator::CloseBlock),
            TokenKind::EndOfInput,
        ]
    );
}

#[test]
fn two_character_operators_are_read_first() {
    assert_eq!(
        kinds("a==b!=c=!d"),
        vec![
            TokenKind::Identifier,
            TokenKind::Punctuator(Punctuator::Eq),
            TokenKind::Identifier,
            TokenKind::Punctuator(Punctuator::NotEq),
            TokenKind::Identifier,
            TokenKind::Punctuator(Punctuator::Assign),
            TokenKind::Punctuator(Punctuator::Not),
            TokenKind::Identifier,
            TokenKind::EndOfInput,
        ]
    );
    assert_eq!(literals("== !="), vec!["==", "!=", ""]);
}

#[test]
fn a_string_keeps_what_stands_between_its_quotes() {
    let tokens = tokenize("\"foo bar\" x");
    assert_eq!(
        tokens,
        vec![
            Token::new(TokenKind::String, "foo bar".to_string(), 0),
            Token::new(TokenKind::Identifier, "x".to_string(), 10),
            Token::new(TokenKind::EndOfInput, String::new(), 11),
        ]
    );
}

#[test]
fn an_empty_string_is_a_string() {
    let tokens = tokenize("\"\"");
    assert_eq!(
        tokens,
        vec![
            Token::new(TokenKind::String, String::new(), 0),
            Token::new(TokenKind::EndOfInput, String::new(), 2),
        ]
    );
}

#[test]
fn an_unclosed_string_is_illegal_to_the_end() {
    let tokens = tokenize("1 \"abc");
    assert_eq!(
        tokens,
        vec![
            Token::new(TokenKind::Integer, "1".to_string(), 0),
            Token::new(TokenKind::Illegal, "\"abc".to_string(), 2),
            Token::new(TokenKind::EndOfInput, String::new(), 6),
        ]
    );
}

#[test]
fn a_stray_character_is_illegal_by_itself() {
    let tokens = tokenize("a @ b");
    assert_eq!(
        tokens,
        vec![
            Token::new(TokenKind::Identifier, "a".to_string(), 0),
            Token::new(TokenKind::Illegal, "@".to_string(), 2),
            Token::new(TokenKind::Identifier, "b".to_string(), 4),
            Token::new(TokenKind::EndOfInput, String::new(), 5),
        ]
    );
}

#[test]
fn positions_count_characters_not_bytes() {
    let tokens = tokenize("\"é\" x");
    assert_eq!(
        tokens,
        vec![
            Token::new(TokenKind::String, "é".to_string(), 0),
            Token::new(TokenKind::Identifier, "x".to_string(), 4),
            Token::new(TokenKind::EndOfInput, String::new(), 5),
        ]
    );
}

#[test]
fn digits_directly_before_letters_are_two_tokens() {
    assert_eq!(literals("12ab"), vec!["12", "ab", ""]);
    assert_eq!(
        kinds("12ab"),
        vec![TokenKind::Integer, TokenKind::Identifier, TokenKind::EndOfInput]
    );
}

#[test]
fn the_lexer_hands_out_tokens_one_by_one() {
    let mut lexer = Lexer::new("a + 1");
    assert_eq!(lexer.next_token(), Token::new(TokenKind::Identifier, "a".to_string(), 0));
    assert_eq!(
        lexer.next_token(),
        Token::new(TokenKind::Punctuator(Punctuator::Add), "+".to_string(), 2)
    );
    assert_eq!(lexer.next_token(), Token::new(TokenKind::Integer, "1".to_string(), 4));
    assert_eq!(lexer.next_token(), Token::new(TokenKind::EndOfInput, String::new(), 5));
    assert_eq!(lexer.next_token(), Token::new(TokenKind::EndOfInput, String::new(), 5));
}

#[test]
fn what_is_left_of_a_lexer_can_be_tokenized() {
    let mut lexer = Lexer::new("a b c");
    lexer.next_token();
    let rest = lexer.tokenize();
    assert_eq!(
        rest,
        vec![
            Token::new(TokenKind::Identifier, "b".to_string(), 2),
            Token::new(TokenKind::Identifier, "c".to_string(), 4),
            Token::new(TokenKind::EndOfInput, String::new(), 5),
        ]
    );
}

#[test]
fn token_kinds_have_their_text_and_binding_strength() {
    assert_eq!(TokenKind::punctuator(Punctuator::Add).text(), "+");
    assert_eq!(TokenKind::punctuator(Punctuator::NotEq).text(), "!=");
    assert_eq!(TokenKind::keyword(Keyword::Function).text(), "fn");
    assert_eq!(TokenKind::Identifier.text(), "identifier");
    assert_eq!(TokenKind::EndOfInput.text(), "end of input");
    assert_eq!(TokenKind::punctuator(Punctuator::Eq).precedence(), 1);
    assert_eq!(TokenKind::punctuator(Punctuator::LessThan).precedence(), 2);
    assert_eq!(TokenKind::punctuator(Punctuator::Sub).precedence(), 3);
    assert_eq!(TokenKind::punctuator(Punctuator::Div).precedence(), 4);
    assert_eq!(TokenKind::punctuator(Punctuator::OpenParen).precedence(), 6);
    assert_eq!(TokenKind::punctuator(Punctuator::Semicolon).precedence(), 0);
    assert_eq!(TokenKind::Identifier.precedence(), 0);
}

#[test]
fn a_duplicate_token_is_equal_to_the_token() {
    let token = Token::new(TokenKind::Identifier, "name".to_string(), 7);
    assert_eq!(token.duplicate(), token);
}
