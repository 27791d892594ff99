use monkey::lexer::tokenize;
use monkey::parser::node::{
    BlockStatement, CallExpression, Expression, ExpressionStatement, FunctionLiteral,
    IfExpression, InfixExpression, LetStatement, PrefixExpression, Program, ReturnStatement,
    Statement,
};
use monkey::parser::render::write_statements;
use monkey::parser::{parse, parse_expression, parse_statement, parse_tokens, ParseError};
use monkey::token::{Keyword, Punctuator, Token, TokenKind};

fn source_of(program: &Program) -> String {
    let mut out = String::new();
    write_statements(&mut out, &program.body);
    out
}

fn grouping_of(input: &str) -> String {
    match parse(input) {
        Ok(program) => source_of(&program),
        Err(e) => panic!("error {:?} on input {}", e, input),
    }
}

fn error_of(input: &str) -> ParseError {
    match parse(input) {
        Ok(program) => panic!("expected an error on input {} but got {:?}", input, program),
        Err(e) => e,
    }
}

fn integer(value: i64) -> Expression {
    Expression::Integer(value)
}

fn name(text: &str) -> Expression {
    Expression::Identifier(text.to_string())
}

fn infix(left: Expression, operator: Punctuator, right: Expression) -> Expression {
    Expression::Infix(Box::new(InfixExpression {
        left,
        operator: TokenKind::Punctuator(operator),
        right,
    }))
}

fn statement(expression: Expression) -> Statement {
    Statement::Expression(ExpressionStatement { expression })
}

#[test]
fn a_tighter_operator_takes_its_operands_first() {
    assert_eq!(grouping_of("1 + 2 * 3"), "(1 + (2 * 3))");
    assert_eq!(grouping_of("1 * 2 + 3"), "((1 * 2) + 3)");
    assert_eq!(grouping_of("1 < 2 + 3"), "(1 < (2 + 3))");
    assert_eq!(grouping_of("1 == 2 < 3"), "(1 == (2 < 3))");
    assert_eq!(grouping_of("5 > 4 == 3 < 4"), "((5 > 4) == (3 < 4))");
    assert_eq!(
        grouping_of("3 + 4 * 5 == 3 * 1 + 4 * 5"),
        "((3 + (4 * 5)) == ((3 * 1) + (4 * 5)))"
    );
}

#[test]
fn operators_of_one_level_group_to_the_left() {
    assert_eq!(grouping_of("1 - 2 - 3"), "((1 - 2) - 3)");
    assert_eq!(grouping_of("1 + 2 - 3 + 4"), "(((1 + 2) - 3) + 4)");
    assert_eq!(grouping_of("8 / 4 / 2"), "((8 / 4) / 2)");
    assert_eq!(grouping_of("8 / 4 * 2"), "((8 / 4) * 2)");
    assert_eq!(grouping_of("1 == 2 != 3"), "((1 == 2) != 3)");
    assert_eq!(grouping_of("1 < 2 > 3"), "((1 < 2) > 3)");
    assert_eq!(
        grouping_of("a + b * c + d / e - f"),
        "(((a + (b * c)) + (d / e)) - f)"
    );
}

#[test]
fn unary_operators_bind_more_tightly_than_binary_ones() {
    assert_eq!(grouping_of("-a * b"), "((-a) * b)");
    assert_eq!(grouping_of("!-a"), "(!(-a))");
    assert_eq!(grouping_of("-1 + 2"), "((-1) + 2)");
    assert_eq!(grouping_of("!true == false"), "((!true) == false)");
    assert_eq!(grouping_of("a * -b"), "(a * (-b))");
}

#[test]
fn parentheses_decide_the_grouping() {
    assert_eq!(grouping_of("(1 + 2) * 3"), "((1 + 2) * 3)");
    assert_eq!(grouping_of("1 - (2 - 3)"), "(1 - (2 - 3))");
    assert_eq!(grouping_of("-(5 + 5)"), "(-(5 + 5))");
    assert_eq!(grouping_of("!(true == true)"), "(!(true == true))");
    assert_eq!(grouping_of("((1))"), "1");
    assert_eq!(grouping_of("2 / (5 + 5)"), "(2 / (5 + 5))");
}

#[test]
fn a_call_binds_more_tightly_than_any_operator() {
    assert_eq!(grouping_of("a + add(b * c) + d"), "((a + add((b * c))) + d)");
    assert_eq!(
        grouping_of("add(a, b, 1, 2 * 3, 4 + 5, add(6, 7 * 8))"),
        "add(a, b, 1, (2 * 3), (4 + 5), add(6, (7 * 8)))"
    );
    assert_eq!(grouping_of("-f(x)"), "(-f(x))");
    assert_eq!(grouping_of("f(x)(y)"), "f(x)(y)");
    assert_eq!(grouping_of("f()"), "f()");
}

#[test]
fn three_operands_are_grouped_as_the_tree_says() {
    let program = parse("1 + 2 * 3").unwrap();
    assert_eq!(
        program.body,
        vec![statement(infix(
            integer(1),
            Punctuator::Add,
            infix(integer(2), Punctuator::Mul, integer(3))
        ))]
    );
    let program = parse("1 - 2 - 3").unwrap();
    assert_eq!(
        program.body,
        vec![statement(infix(
            infix(integer(1), Punctuator::Sub, integer(2)),
            Punctuator::Sub,
            integer(3)
        ))]
    );
}

#[test]
fn rendered_source_parses_to_the_same_tree() {
    let inputs = [
        "1 + 2 * 3 - 4 / 5",
        "-a * !b == c",
        "let f = fn(x, y) { let z = x + y; return z * 2; }; f(1, 2)",
        "if (a < b) { a } else { b }",
        "if (a) { return; }",
        "\"text\"; true; false; name; 17",
        "f(g(1), fn() { 2 }(), 3 + 4)",
    ];
    for input in inputs {
        let first = parse(input).unwrap();
        let second = parse(&source_of(&first)).unwrap();
        assert_eq!(first, second);
    }
}

#[test]
fn parsing_twice_gives_equal_trees() {
    let inputs = [
        "let a = 5; a + 1",
        "fn(x) { if (x) { return 1; } 2 }",
        "1 +",
        "let = 3",
        "",
    ];
    for input in inputs {
        assert_eq!(parse(input), parse(input));
    }
}

#[test]
fn an_empty_source_is_an_empty_program() {
    assert_eq!(parse("").unwrap().body, vec![]);
    assert_eq!(parse("  \n ").unwrap().body, vec![]);
}

#[test]
fn a_terminator_is_never_required() {
    let with = parse("let a = 1; a; return a;").unwrap();
    let without = parse("let a = 1 a return a").unwrap();
    assert_eq!(with, without);
    assert_eq!(with.body.len(), 3);
}

#[test]
fn a_statement_takes_one_terminator_only() {
    assert_eq!(
        error_of("1;;"),
        ParseError::NoPrefixParser {
            token: Token::new(TokenKind::Punctuator(Punctuator::Semicolon), ";".to_string(), 2)
        }
    );
}

#[test]
fn a_return_may_stand_without_a_value() {
    let bare = Statement::Return(ReturnStatement { value: None });
    assert_eq!(parse("return;").unwrap().body, vec![bare]);
    let bare = Statement::Return(ReturnStatement { value: None });
    assert_eq!(parse("return").unwrap().body, vec![bare]);
    let program = parse("if (x) { return }").unwrap();
    let expected = Expression::If(Box::new(IfExpression {
        condition: name("x"),
        consequence: BlockStatement {
            statements: vec![Statement::Return(ReturnStatement { value: None })],
        },
        alternative: None,
    }));
    assert_eq!(program.body, vec![statement(expected)]);
}

#[test]
fn a_let_statement_has_a_name_and_a_value() {
    let program = parse("let x = 1 + 2;").unwrap();
    assert_eq!(
        program.body,
        vec![Statement::Let(LetStatement {
            name: "x".to_string(),
            value: infix(integer(1), Punctuator::Add, integer(2)),
        })]
    );
}

#[test]
fn an_if_expression_has_a_condition_and_blocks() {
    let program = parse("if (x < y) { x } else { y; 1 }").unwrap();
    let expected = Expression::If(Box::new(IfExpression {
        condition: infix(name("x"), Punctuator::LessThan, name("y")),
        consequence: BlockStatement {
            statements: vec![statement(name("x"))],
        },
        alternative: Some(BlockStatement {
            statements: vec![statement(name("y")), statement(integer(1))],
        }),
    }));
    assert_eq!(program.body, vec![statement(expected)]);
}

#[test]
fn a_function_literal_has_parameters_and_a_body() {
    let program = parse("fn(x, y) { x + y; }").unwrap();
    let expected = Expression::Function(Box::new(FunctionLiteral {
        parameters: vec!["x".to_string(), "y".to_string()],
        body: BlockStatement {
            statements: vec![statement(infix(name("x"), Punctuator::Add, name("y")))],
        },
    }));
    assert_eq!(program.body, vec![statement(expected)]);

    let program = parse("fn() {}").unwrap();
    let expected = Expression::Function(Box::new(FunctionLiteral {
        parameters: vec![],
        body: BlockStatement { statements: vec![] },
    }));
    assert_eq!(program.body, vec![statement(expected)]);
}

#[test]
fn a_call_has_a_callee_and_arguments() {
    let program = parse("add(1, 2 * 3)").unwrap();
    let expected = Expression::Call(Box::new(CallExpression {
        function: name("add"),
        arguments: vec![integer(1), infix(integer(2), Punctuator::Mul, integer(3))],
    }));
    assert_eq!(program.body, vec![statement(expected)]);
}

#[test]
fn a_prefix_expression_has_an_operator_and_an_operand() {
    let program = parse("!x").unwrap();
    let expected = Expression::Prefix(Box::new(PrefixExpression {
        operator: TokenKind::Punctuator(Punctuator::Not),
        right: name("x"),
    }));
    assert_eq!(program.body, vec![statement(expected)]);
}

#[test]
fn a_missing_name_is_an_unexpected_token() {
    assert_eq!(
        error_of("let = 5;"),
        ParseError::UnexpectedToken {
            expected: TokenKind::Identifier,
            found: Token::new(TokenKind::Punctuator(Punctuator::Assign), "=".to_string(), 4),
            position: 4,
        }
    );
}

#[test]
fn a_missing_assignment_is_an_unexpected_token() {
    assert_eq!(
        error_of("let x 5;"),
        ParseError::UnexpectedToken {
            expected: TokenKind::Punctuator(Punctuator::Assign),
            found: Token::new(TokenKind::Integer, "5".to_string(), 6),
            position: 6,
        }
    );
}

#[test]
fn a_missing_closing_parenthesis_is_an_unexpected_token() {
    assert_eq!(
        error_of("(1 + 2"),
        ParseError::UnexpectedToken {
            expected: TokenKind::Punctuator(Punctuator::CloseParen),
            found: Token::new(TokenKind::EndOfInput, String::new(), 6),
            position: 6,
        }
    );
    assert_eq!(
        error_of("f(1 2)"),
        ParseError::UnexpectedToken {
            expected: TokenKind::Punctuator(Punctuator::CloseParen),
            found: Token::new(TokenKind::Integer, "2".to_string(), 4),
            position: 4,
        }
    );
}

#[test]
fn a_missing_closing_brace_is_an_unexpected_token() {
    assert_eq!(
        error_of("if (x) { 1 "),
        ParseError::UnexpectedToken {
            expected: TokenKind::Punctuator(Punctuator::CloseBlock),
            found: Token::new(TokenKind::EndOfInput, String::new(), 11),
            position: 11,
        }
    );
}

#[test]
fn a_condition_needs_its_parentheses() {
    assert_eq!(
        error_of("if x { 1 }"),
        ParseError::UnexpectedToken {
            expected: TokenKind::Punctuator(Punctuator::OpenParen),
            found: Token::new(TokenKind::Identifier, "x".to_string(), 3),
            position: 3,
        }
    );
    assert_eq!(
        error_of("if (x) 1"),
        ParseError::UnexpectedToken {
            expected: TokenKind::Punctuator(Punctuator::OpenBlock),
            found: Token::new(TokenKind::Integer, "1".to_string(), 7),
            position: 7,
        }
    );
}

#[test]
fn parameters_are_names_separated_by_commas() {
    assert_eq!(
        error_of("fn(x, 1) {}"),
        ParseError::UnexpectedToken {
            expected: TokenKind::Identifier,
            found: Token::new(TokenKind::Integer, "1".to_string(), 6),
            position: 6,
        }
    );
    assert_eq!(
        error_of("fn(x y) {}"),
        ParseError::UnexpectedToken {
            expected: TokenKind::Punctuator(Punctuator::CloseParen),
            found: Token::new(TokenKind::Identifier, "y".to_string(), 5),
            position: 5,
        }
    );
    assert_eq!(
        error_of("fn x"),
        ParseError::UnexpectedToken {
            expected: TokenKind::Punctuator(Punctuator::OpenParen),
            found: Token::new(TokenKind::Identifier, "x".to_string(), 3),
            position: 3,
        }
    );
}

#[test]
fn a_token_that_starts_no_expression_has_no_prefix_parser() {
    assert_eq!(
        error_of(")"),
        ParseError::NoPrefixParser {
            token: Token::new(TokenKind::Punctuator(Punctuator::CloseParen), ")".to_string(), 0)
        }
    );
    assert_eq!(
        error_of("1 )"),
        ParseError::NoPrefixParser {
            token: Token::new(TokenKind::Punctuator(Punctuator::CloseParen), ")".to_string(), 2)
        }
    );
    assert_eq!(
        error_of("{ 1 }"),
        ParseError::NoPrefixParser {
            token: Token::new(TokenKind::Punctuator(Punctuator::OpenBlock), "{".to_string(), 0)
        }
    );
    assert_eq!(
        error_of("1 + @"),
        ParseError::NoPrefixParser {
            token: Token::new(TokenKind::Illegal, "@".to_string(), 4)
        }
    );
    assert_eq!(
        error_of("let x = else"),
        ParseError::NoPrefixParser {
            token: Token::new(TokenKind::Keyword(Keyword::Else), "else".to_string(), 8)
        }
    );
}

#[test]
fn an_integer_that_does_not_fit_has_no_prefix_parser() {
    assert_eq!(
        error_of("9223372036854775808"),
        ParseError::NoPrefixParser {
            token: Token::new(TokenKind::Integer, "9223372036854775808".to_string(), 0)
        }
    );
    assert_eq!(
        parse("9223372036854775807").unwrap().body,
        vec![statement(integer(i64::MAX))]
    );
}

#[test]
fn an_expression_cut_off_by_the_end_is_unterminated() {
    assert_eq!(error_of("1 +"), ParseError::UnterminatedExpression);
    assert_eq!(error_of("let x ="), ParseError::UnterminatedExpression);
    assert_eq!(error_of("-"), ParseError::UnterminatedExpression);
    assert_eq!(error_of("f(1,"), ParseError::UnterminatedExpression);
    assert_eq!(error_of("("), ParseError::UnterminatedExpression);
}

#[test]
fn tokens_without_an_end_marker_end_where_they_end() {
    let mut tokens = tokenize("1 + 2");
    tokens.pop();
    let program = parse_tokens(&tokens).unwrap();
    assert_eq!(
        program.body,
        vec![statement(infix(integer(1), Punctuator::Add, integer(2)))]
    );
    let none: Vec<Token> = Vec::new();
    assert_eq!(parse_tokens(&none).unwrap().body, vec![]);
}

#[test]
fn an_expression_stops_where_nothing_binds_more_tightly() {
    let tokens = tokenize("1 + 2 * 3 + 4");
    let (expression, next) = parse_expression(&tokens, 0, 3).unwrap();
    assert_eq!(expression, integer(1));
    assert_eq!(next, 1);
    let (expression, next) = parse_expression(&tokens, 2, 3).unwrap();
    assert_eq!(expression, infix(integer(2), Punctuator::Mul, integer(3)));
    assert_eq!(next, 5);
    let (expression, next) = parse_expression(&tokens, 0, 0).unwrap();
    assert_eq!(
        expression,
        infix(
            infix(
                integer(1),
                Punctuator::Add,
                infix(integer(2), Punctuator::Mul, integer(3))
            ),
            Punctuator::Add,
            integer(4)
        )
    );
    assert_eq!(next, 7);
}

#[test]
fn a_statement_ends_behind_its_terminator() {
    let tokens = tokenize("let a = 1; a");
    let (first, next) = parse_statement(&tokens, 0).unwrap();
    assert_eq!(
        first,
        Statement::Let(LetStatement {
            name: "a".to_string(),
            value: integer(1)
        })
    );
    assert_eq!(next, 5);
    let (second, next) = parse_statement(&tokens, next).unwrap();
    assert_eq!(second, statement(name("a")));
    assert_eq!(next, 6);
    assert_eq!(
        parse_statement(&tokens, 100),
        Err(ParseError::UnterminatedExpression)
    );
}

#[test]
fn a_clone_of_a_tree_is_equal_to_the_tree() {
    let program = parse("let f = fn(x) { if (x) { return -x; } else { f(\"s\", !x) } }; f(1); return").unwrap();
    assert_eq!(program.clone(), program);
    for statement in program.body.iter() {
        assert_eq!(&statement.clone(), statement);
        match statement {
            Statement::Let(l) => {
                assert_eq!(&l.clone(), l);
                assert_eq!(l.value.clone(), l.value);
                match &l.value {
                    Expression::Function(f) => {
                        assert_eq!(&f.clone(), f);
                        assert_eq!(f.body.clone(), f.body);
                    }
                    other => panic!("expected a function literal but got {:?}", other),
                }
            }
            Statement::Expression(x) => {
                assert_eq!(&x.clone(), x);
                match &x.expression {
                    Expression::Call(c) => assert_eq!(&c.clone(), c),
                    other => panic!("expected a call but got {:?}", other),
                }
            }
            Statement::Return(r) => assert_eq!(&r.clone(), r),
            Statement::Block(b) => assert_eq!(&b.clone(), b),
        }
    }
    let tokens = tokenize("a + 1");
    assert_eq!(tokens.clone(), tokens);
}

#[test]
fn a_copy_of_a_tree_is_equal_to_the_tree() {
    let program = parse("let f = fn(x) { if (x) { return -x; } else { f(\"s\", !x) } };").unwrap();
    for statement in program.body.iter() {
        assert_eq!(&statement.duplicate(), statement);
    }
}
