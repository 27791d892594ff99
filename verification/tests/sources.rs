use std::rc::Rc;

use monkey::evaluator::{eval, is_truthy, EvalError, EvalErrorKind};
use monkey::lexer::tokenize;
use monkey::object::{Arena, Object};
use monkey::parser::node::{Expression, Program, Statement};
use monkey::parser::parse;
use monkey::token::{Token, TokenKind};

fn run_text(input: &str) -> Result<Rc<Object>, EvalError> {
    let mut arena = Arena::new();
    match parse(input) {
        Ok(program) => eval(&program, &mut arena),
        Err(e) => panic!("error {:?} on input {}", e, input),
    }
}

fn words_of(input: &str) -> Vec<(TokenKind, String)> {
    let mut tokens: Vec<Token> = tokenize(input);
    tokens.pop();
    tokens.into_iter().map(|t| (t.kind, t.literal)).collect()
}

fn only_expression(program: Program) -> Expression {
    let mut body = program.body;
    assert_eq!(body.len(), 1);
    match body.pop() {
        Some(Statement::Expression(s)) => s.expression,
        other => panic!("expected an expression statement but got {:?}", other),
    }
}

fn nested(depth: usize) -> String {
    let mut text = "return 10;".to_string();
    for _ in 0..depth {
        text = format!("if (true) {{ {} return 1; }}", text);
    }
    text
}

#[test]
fn texts_lex_part_by_part() {
    let parts = [
        ("let x", " = 5;"),
        ("a +", "b"),
        ("f(", "1, 2)"),
        ("\"s\"", "x"),
        ("x ", " y"),
        ("1 <", "2"),
        ("", "a"),
        ("a", ""),
        ("if (x) {", "}"),
    ];
    for (a, b) in parts {
        let whole = format!("{}{}", a, b);
        let mut expected = words_of(a);
        expected.extend(words_of(b));
        assert_eq!(words_of(&whole), expected, "{:?} and {:?}", a, b);
    }
}

#[test]
fn texts_with_a_blank_between_them_lex_independently() {
    let parts = [
        ("let", "x"),
        ("a", "b"),
        ("1", "2"),
        ("=", "="),
        ("!", "="),
        ("foo", "1"),
        ("return 1;", "}"),
    ];
    for (a, b) in parts {
        let whole = format!("{} {}", a, b);
        let mut expected = words_of(a);
        expected.extend(words_of(b));
        assert_eq!(words_of(&whole), expected, "{:?} and {:?}", a, b);
    }
}

#[test]
fn tokens_that_run_on_are_not_apart() {
    assert_eq!(words_of("ab12").len(), 1);
    assert_eq!(words_of("==").len(), 1);
    assert_eq!(words_of("!=").len(), 1);
    assert_eq!(words_of("12ab").len(), 2);
}

#[test]
fn positions_of_a_later_part_are_moved() {
    let alone = tokenize("b + 1");
    let after = tokenize("aa b + 1");
    assert_eq!(after.len(), alone.len() + 1);
    for (i, token) in alone.iter().enumerate() {
        assert_eq!(after[i + 1].kind, token.kind);
        assert_eq!(after[i + 1].literal, token.literal);
        assert_eq!(after[i + 1].position, token.position + 3);
    }
}

#[test]
fn an_expression_parses_to_the_same_tree_in_parentheses() {
    let texts = [
        "1 + 2 * 3",
        "f(a, b)(c)",
        "if (x) { y } else { z }",
        "fn(a) { let b = a; return b; }",
        "-x * !y",
        "a == b",
        "\"s\"",
    ];
    for e in texts {
        let alone = only_expression(parse(e).unwrap());
        let grouped = only_expression(parse(&format!("({})", e)).unwrap());
        assert_eq!(grouped, alone, "{}", e);
        let spaced = only_expression(parse(&format!("  (  {}  )  ", e)).unwrap());
        assert_eq!(spaced, alone, "{}", e);
    }
}

#[test]
fn negating_a_text_in_parentheses() {
    let texts = [
        "5",
        "0",
        "true",
        "false",
        "1 < 2",
        "1 > 2",
        "\"\"",
        "if (false) { 1 }",
        "if (1 < 2) { false } else { 3 }",
        "fn(x) { x }",
        "fn(x) { x }(false)",
        "1 + 2 * 3 == 7",
    ];
    for e in texts {
        let value = run_text(e).unwrap();
        let t = is_truthy(&value);
        match &*run_text(&format!("!!({})", e)).unwrap() {
            Object::Bool(b) => assert_eq!(*b, t, "{}", e),
            other => panic!("expected a truth value but got {:?}", other),
        }
        match &*run_text(&format!("!({})", e)).unwrap() {
            Object::Bool(b) => assert_eq!(*b, !t, "{}", e),
            other => panic!("expected a truth value but got {:?}", other),
        }
    }
}

#[test]
fn negating_a_text_that_fails_fails_in_the_same_way() {
    let texts = ["missing", "1 / 0", "1 + true", "5()"];
    for e in texts {
        let alone = run_text(e).unwrap_err().message;
        assert_eq!(run_text(&format!("!!({})", e)).unwrap_err().message, alone);
        assert_eq!(run_text(&format!("!({})", e)).unwrap_err().message, alone);
    }
}

#[test]
fn a_return_under_any_depth_of_nesting_yields_its_value() {
    assert_eq!(nested(0), "return 10;");
    assert_eq!(nested(1), "if (true) { return 10; return 1; }");
    assert_eq!(
        nested(2),
        "if (true) { if (true) { return 10; return 1; } return 1; }"
    );
    for depth in 0..40 {
        match &*run_text(&nested(depth)).unwrap() {
            Object::Int(value) => assert_eq!(*value, 10, "depth {}", depth),
            other => panic!("expected the integer 10 but got {:?}", other),
        }
    }
}

#[test]
fn an_integer_and_a_truth_value_never_fit_an_operator() {
    let numbers = ["0", "5", "007", "9223372036854775807"];
    let operators = ["+", "-", "*", "/", "<", ">", "==", "!="];
    let truths = ["true", "false"];
    for l in numbers {
        let shown: i64 = l.parse().unwrap();
        for op in operators {
            for r in truths {
                let text = format!("{} {} {}", l, op, r);
                match run_text(&text) {
                    Err(EvalError {
                        kind:
                            EvalErrorKind::TypeMismatch {
                                left,
                                operator,
                                right,
                            },
                        message,
                    }) => {
                        assert_eq!(left.describe(), format!("Int({})", shown));
                        assert_eq!(operator.text(), op);
                        assert_eq!(right.describe(), format!("Bool({})", r));
                        assert_eq!(
                            message,
                            format!("type mismatch: Int({}) {} Bool({})", shown, op, r)
                        );
                    }
                    other => panic!("expected a type mismatch on {} but got {:?}", text, other),
                }
                let text = format!("{} {} {}", r, op, l);
                match run_text(&text) {
                    Err(e) => assert_eq!(
                        e.message,
                        format!("type mismatch: Bool({}) {} Int({})", r, op, shown)
                    ),
                    other => panic!("expected a type mismatch on {} but got {:?}", text, other),
                }
            }
        }
    }
}

#[test]
fn a_name_alone_is_looked_up() {
    let names = ["foobar", "x", "_", "a1", "letter", "truth", "iffy"];
    for name in names {
        match run_text(name) {
            Err(EvalError {
                kind: EvalErrorKind::IdentifierNotFound { name: missing },
                message,
            }) => {
                assert_eq!(missing, name);
                assert_eq!(message, format!("identifier not found: {}", name));
            }
            other => panic!("expected a fault on {} but got {:?}", name, other),
        }
        let mut arena = Arena::new();
        arena.define(0, name.to_string(), Rc::new(Object::Int(3)));
        let program = parse(name).unwrap();
        assert_eq!(eval(&program, &mut arena).unwrap().describe(), "Int(3)");
    }
}
