use std::rc::Rc;

use monkey::evaluator::{
    apply_infix, apply_prefix, eval, eval_in, is_truthy, unwrap_returns, wrap_return, EvalError,
    EvalErrorKind, DEFAULT_CALL_DEPTH,
};
use monkey::object::{Arena, Object, Return};
use monkey::parser::node::{Expression, InfixExpression, PrefixExpression};
use monkey::parser::parse;
use monkey::token::{Keyword, Punctuator, TokenKind};

fn run(input: &str) -> Result<Rc<Object>, EvalError> {
    let mut arena = Arena::new();
    run_in(input, &mut arena)
}

fn run_in(input: &str, arena: &mut Arena) -> Result<Rc<Object>, EvalError> {
    match parse(input) {
        Ok(program) => eval(&program, arena),
        Err(e) => panic!("error {:?} on input {}", e, input),
    }
}

fn shown(input: &str) -> String {
    match run(input) {
        Ok(value) => value.describe(),
        Err(e) => panic!("error {:?} on input {}", e, input),
    }
}

fn message(input: &str) -> String {
    match run(input) {
        Ok(value) => panic!("expected an error on input {} but got {:?}", input, value),
        Err(e) => e.message,
    }
}

fn operator(p: Punctuator) -> TokenKind {
    TokenKind::Punctuator(p)
}

#[test]
fn literals_evaluate_to_themselves() {
    assert_eq!(shown("5"), "Int(5)");
    assert_eq!(shown("true"), "Bool(true)");
    assert_eq!(shown("\"hello world\""), "String(\"hello world\")");
    assert_eq!(shown("9223372036854775807"), "Int(9223372036854775807)");
}

#[test]
fn an_empty_program_yields_null() {
    assert_eq!(shown(""), "Null");
}

#[test]
fn a_let_yields_null() {
    assert_eq!(shown("let a = 5"), "Null");
    assert_eq!(shown("1; let a = 5;"), "Null");
}

#[test]
fn arithmetic_wraps_around_at_64_bits() {
    assert_eq!(shown("9223372036854775807 + 1"), "Int(-9223372036854775808)");
    assert_eq!(shown("-9223372036854775807 - 2"), "Int(9223372036854775807)");
    assert_eq!(shown("9223372036854775807 * 2"), "Int(-2)");
    assert_eq!(shown("4611686018427387904 * 4"), "Int(0)");
    assert_eq!(shown("-(-9223372036854775807 - 1)"), "Int(-9223372036854775808)");
    assert_eq!(shown("(-9223372036854775807 - 1) / -1"), "Int(-9223372036854775808)");
}

#[test]
fn division_rounds_towards_zero() {
    assert_eq!(shown("7 / 2"), "Int(3)");
    assert_eq!(shown("-7 / 2"), "Int(-3)");
    assert_eq!(shown("7 / -2"), "Int(-3)");
    assert_eq!(shown("-7 / -2"), "Int(3)");
    assert_eq!(shown("0 / 5"), "Int(0)");
    assert_eq!(shown("1 / 2"), "Int(0)");
    assert_eq!(shown("-1 / 2"), "Int(0)");
}

#[test]
fn division_by_zero_is_a_fault() {
    assert_eq!(message("1 / 0"), "division by zero");
    assert_eq!(message("0 / 0"), "division by zero");
    assert_eq!(message("let a = 3; a / (a - 3)"), "division by zero");
    match run("1 / 0") {
        Err(EvalError {
            kind: EvalErrorKind::DivisionByZero,
            ..
        }) => {}
        other => panic!("expected a division by zero but got {:?}", other),
    }
}

#[test]
fn every_value_but_false_and_null_counts_as_true() {
    assert!(is_truthy(&Object::Int(0)));
    assert!(is_truthy(&Object::Int(5)));
    assert!(is_truthy(&Object::Bool(true)));
    assert!(is_truthy(&Object::String(String::new())));
    assert!(!is_truthy(&Object::Bool(false)));
    assert!(!is_truthy(&Object::Null));
    assert_eq!(shown("if (0) { 1 } else { 2 }"), "Int(1)");
    assert_eq!(shown("if (\"\") { 1 } else { 2 }"), "Int(1)");
    assert_eq!(shown("if (fn() { 1 }) { 1 } else { 2 }"), "Int(1)");
    assert_eq!(shown("if (if (false) { 1 }) { 1 } else { 2 }"), "Int(2)");
    assert_eq!(shown("!0"), "Bool(false)");
    assert_eq!(shown("!\"\""), "Bool(false)");
    assert_eq!(shown("!if (false) { 1 }"), "Bool(true)");
}

#[test]
fn negating_twice_gives_the_truth_of_the_value() {
    let inputs = [
        ("5", true),
        ("0", true),
        ("true", true),
        ("false", false),
        ("\"s\"", true),
        ("if (false) { 1 }", false),
        ("fn(x) { x }", true),
    ];
    for (input, expected) in inputs {
        let twice = format!("!!{}", input);
        match &*run(&twice).unwrap() {
            Object::Bool(b) => assert_eq!(*b, expected),
            other => panic!("expected a truth value but got {:?}", other),
        }
        let value = run(input).unwrap();
        assert_eq!(is_truthy(&value), expected);
    }
}

#[test]
fn a_conditional_without_alternative_yields_null_where_the_condition_fails() {
    assert_eq!(shown("if (false) { 10 }"), "Null");
    assert_eq!(shown("if (1 > 2) { 10 }"), "Null");
    assert_eq!(shown("if (if (false) { 1 }) { 10 }"), "Null");
    assert_eq!(shown("if (true) { }"), "Null");
}

#[test]
fn a_conditional_yields_the_value_of_the_block_it_takes() {
    assert_eq!(shown("if (true) { 1; 2; 3 }"), "Int(3)");
    assert_eq!(shown("if (false) { 1 } else { 4; 5 }"), "Int(5)");
    assert_eq!(shown("if (true) { let a = 1; } else { 2 }"), "Null");
}

#[test]
fn a_block_of_a_conditional_binds_in_the_scope_around_it() {
    assert_eq!(shown("if (true) { let a = 7; } a"), "Int(7)");
}

#[test]
fn a_return_stops_the_statements_behind_it() {
    assert_eq!(shown("return 1; 2"), "Int(1)");
    assert_eq!(shown("return 1; undefined_name"), "Int(1)");
    assert_eq!(shown("return 1; 1 / 0"), "Int(1)");
    assert_eq!(shown("return; 2"), "Null");
    assert_eq!(shown("1; return"), "Null");
}

#[test]
fn a_return_leaves_every_block_around_it() {
    let input = "
        if (true) {
            if (true) {
                if (true) {
                    return 1;
                }
                return 2;
            }
            return 3;
        }
        return 4;";
    assert_eq!(shown(input), "Int(1)");
}

#[test]
fn a_return_does_not_pass_a_call() {
    assert_eq!(shown("let f = fn() { return 1; 2 }; f() + 10"), "Int(11)");
    assert_eq!(shown("let f = fn() { return 1; }; f(); 5"), "Int(5)");
    assert_eq!(
        shown("let f = fn() { if (true) { return 1; } 2 }; let g = fn() { f(); 3 }; g()"),
        "Int(3)"
    );
    assert_eq!(
        shown("let f = fn() { return if (true) { return 7; }; }; f()"),
        "Int(7)"
    );
    assert_eq!(shown("let f = fn() { return; }; f()"), "Null");
}

#[test]
fn a_program_yields_no_wrapped_value() {
    match &*run("return 5;").unwrap() {
        Object::Int(5) => {}
        other => panic!("expected the integer 5 but got {:?}", other),
    }
    match &*run("return if (true) { return 5; };").unwrap() {
        Object::Int(5) => {}
        other => panic!("expected the integer 5 but got {:?}", other),
    }
}

#[test]
fn wrapping_and_unwrapping_a_value() {
    let value = Rc::new(Object::Int(3));
    let once = wrap_return(Rc::clone(&value));
    match &*once {
        Object::Return(inner) => assert!(Rc::ptr_eq(&inner.value, &value)),
        other => panic!("expected a wrapped value but got {:?}", other),
    }
    let twice = wrap_return(once);
    assert_eq!(twice.describe(), "Return(Return(Int(3)))");
    assert!(Rc::ptr_eq(&unwrap_returns(twice), &value));
    assert!(Rc::ptr_eq(&unwrap_returns(Rc::clone(&value)), &value));
}

#[test]
fn a_let_is_seen_by_the_statements_behind_it() {
    assert_eq!(shown("let a = 1; let b = a + 1; let a = b * 10; a"), "Int(20)");
    let mut arena = Arena::new();
    run_in("let a = 5;", &mut arena).unwrap();
    assert_eq!(arena.lookup(0, "a").unwrap().describe(), "Int(5)");
    assert_eq!(run_in("a * 2", &mut arena).unwrap().describe(), "Int(10)");
}

#[test]
fn a_function_sees_the_scope_in_which_it_was_made() {
    assert_eq!(shown("let a = 5; let f = fn() { a }; f()"), "Int(5)");
    assert_eq!(shown("let f = fn() { late }; let late = 9; f()"), "Int(9)");
    assert_eq!(
        shown("let newAdder = fn(x) { fn(y) { x + y } }; let addTwo = newAdder(2); addTwo(3)"),
        "Int(5)"
    );
    assert_eq!(
        shown(
            "let counter = fn(start) { fn(step) { fn() { start + step } } };
             let a = counter(1)(10);
             let b = counter(2)(20);
             a() * 100 + b()"
        ),
        "Int(1122)"
    );
}

#[test]
fn what_a_function_binds_does_not_leak() {
    assert_eq!(
        shown("let x = 1; let f = fn() { let x = 2; x }; f() * 10 + x"),
        "Int(21)"
    );
    assert_eq!(
        message("let f = fn() { let y = 2; y }; f(); y"),
        "identifier not found: y"
    );
    assert_eq!(
        message("let f = fn(p) { p }; f(1); p"),
        "identifier not found: p"
    );
    assert_eq!(
        message("let f = fn() { let inner = 1; }; let g = fn() { inner }; f(); g()"),
        "identifier not found: inner"
    );
}

#[test]
fn each_call_gets_a_scope_of_its_own() {
    let mut arena = Arena::new();
    let value = run_in(
        "let f = fn(x) { let y = x * 2; y }; f(1) + f(2) + f(3)",
        &mut arena,
    )
    .unwrap();
    assert_eq!(value.describe(), "Int(12)");
    assert_eq!(arena.len(), 4);
    assert_eq!(arena.lookup(1, "y").unwrap().describe(), "Int(2)");
    assert_eq!(arena.lookup(2, "y").unwrap().describe(), "Int(4)");
    assert_eq!(arena.lookup(3, "y").unwrap().describe(), "Int(6)");
    assert_eq!(arena.lookup(3, "x").unwrap().describe(), "Int(3)");
    assert!(arena.lookup(0, "y").is_none());
    assert_eq!(arena.outer_of(3), Some(0));
}

#[test]
fn functions_may_call_themselves() {
    assert_eq!(
        shown("let fact = fn(n) { if (n < 1) { 1 } else { n * fact(n - 1) } }; fact(10)"),
        "Int(3628800)"
    );
    assert_eq!(
        shown(
            "let fib = fn(n) { if (n < 2) { return n; } fib(n - 1) + fib(n - 2) }; fib(15)"
        ),
        "Int(610)"
    );
}

#[test]
fn functions_are_values() {
    assert_eq!(
        shown("let twice = fn(f, x) { f(f(x)) }; twice(fn(n) { n * 3 }, 2)"),
        "Int(18)"
    );
    assert_eq!(shown("fn(x) { x + 1 }(4)"), "Int(5)");
    assert_eq!(shown("fn(x) { x }"), "Function(fn(x) { x })");
    assert_eq!(run("fn(a, b) { a }").unwrap().inspect(), "fn(a, b) { a }");
}

#[test]
fn a_function_whose_scope_is_not_there_runs_in_a_scope_of_its_own() {
    let mut arena = Arena::new();
    arena.define(0, "a".to_string(), Rc::new(Object::Int(1)));
    let program = parse("fn(x) { x }").unwrap();
    let made = eval(&program, &mut arena).unwrap();
    let stray = match &*made {
        Object::Function(f) => {
            let mut copy = monkey::object::Function::clone(f);
            copy.env = 9;
            Rc::new(Object::Function(Rc::new(copy)))
        }
        other => panic!("expected a function but got {:?}", other),
    };
    arena.define(0, "stray".to_string(), stray);
    assert_eq!(run_in("stray(5)", &mut arena).unwrap().describe(), "Int(5)");
    let last = arena.len() - 1;
    assert_eq!(arena.outer_of(last), None);
}

#[test]
fn of_two_parameters_of_one_name_the_later_counts() {
    assert_eq!(shown("fn(x, x) { x }(1, 2)"), "Int(2)");
}

#[test]
fn arguments_are_evaluated_in_order() {
    assert_eq!(
        message("let f = fn(a, b) { a }; f(first, second)"),
        "identifier not found: first"
    );
    assert_eq!(
        message("let f = fn(a, b) { a }; f(1, second)"),
        "identifier not found: second"
    );
    assert_eq!(
        shown("let f = fn(a, b) { b }; f(if (true) { let s = 4; }, s)"),
        "Int(4)"
    );
}

#[test]
fn nesting_calls_too_deeply_is_a_fault() {
    assert_eq!(
        message("let forever = fn() { forever() }; forever()"),
        "call depth exceeded"
    );
    let program = parse("let down = fn(n) { if (n < 1) { 0 } else { down(n - 1) } }; down(3)")
        .unwrap();
    let mut arena = Arena::new();
    assert_eq!(
        eval_in(&program, &mut arena, 0, 4).unwrap().describe(),
        "Int(0)"
    );
    let mut arena = Arena::new();
    match eval_in(&program, &mut arena, 0, 3) {
        Err(EvalError {
            kind: EvalErrorKind::CallDepthExceeded,
            message,
        }) => assert_eq!(message, "call depth exceeded"),
        other => panic!("expected a fault but got {:?}", other),
    }
    let program = parse("1 + 2").unwrap();
    let mut arena = Arena::new();
    assert_eq!(
        eval_in(&program, &mut arena, 0, 0).unwrap().describe(),
        "Int(3)"
    );
    let program = parse("fn() { 1 }()").unwrap();
    let mut arena = Arena::new();
    assert!(eval_in(&program, &mut arena, 0, 0).is_err());
    assert_eq!(DEFAULT_CALL_DEPTH, 256);
}

#[test]
fn a_call_with_the_wrong_number_of_arguments_is_a_fault() {
    assert_eq!(
        message("let f = fn(x) { x }; f()"),
        "wrong number of arguments: expected 1, got 0"
    );
    assert_eq!(
        message("let f = fn() { 1 }; f(1, 2, 3)"),
        "wrong number of arguments: expected 0, got 3"
    );
    match run("fn(a, b) { a }(1)") {
        Err(EvalError {
            kind: EvalErrorKind::ArgumentCountMismatch { expected: 2, got: 1 },
            ..
        }) => {}
        other => panic!("expected a fault but got {:?}", other),
    }
}

#[test]
fn a_call_of_what_is_no_function_is_a_fault() {
    assert_eq!(message("5(1)"), "not a function: Int(5)");
    assert_eq!(message("let a = true; a()"), "not a function: Bool(true)");
    assert_eq!(message("\"f\"(1)"), "not a function: String(\"f\")");
    assert_eq!(message("1(undefined_name)"), "not a function: Int(1)");
    match run("5(1)") {
        Err(EvalError {
            kind: EvalErrorKind::NotCallable { object },
            ..
        }) => assert_eq!(object.describe(), "Int(5)"),
        other => panic!("expected a fault but got {:?}", other),
    }
}

#[test]
fn an_unbound_name_is_a_fault() {
    assert_eq!(message("foobar"), "identifier not found: foobar");
    assert_eq!(message("let a = 1; a + b"), "identifier not found: b");
    match run("x") {
        Err(EvalError {
            kind: EvalErrorKind::IdentifierNotFound { name },
            ..
        }) => assert_eq!(name, "x"),
        other => panic!("expected a fault but got {:?}", other),
    }
}

#[test]
fn operands_of_different_kinds_are_a_type_mismatch() {
    assert_eq!(message("5 + true"), "type mismatch: Int(5) + Bool(true)");
    assert_eq!(message("true == 1"), "type mismatch: Bool(true) == Int(1)");
    assert_eq!(
        message("\"a\" + 1"),
        "type mismatch: String(\"a\") + Int(1)"
    );
    assert_eq!(
        message("1 < if (false) { 1 }"),
        "type mismatch: Int(1) < Null"
    );
    assert_eq!(
        message("fn(x) { x } + 1"),
        "type mismatch: Function(fn(x) { x }) + Int(1)"
    );
    assert_eq!(
        message("1 + if (true) { return 2; }"),
        "type mismatch: Int(1) + Return(Int(2))"
    );
    match run("5 * false") {
        Err(EvalError {
            kind:
                EvalErrorKind::TypeMismatch {
                    left,
                    operator,
                    right,
                },
            ..
        }) => {
            assert_eq!(left.describe(), "Int(5)");
            assert_eq!(operator, TokenKind::Punctuator(Punctuator::Mul));
            assert_eq!(right.describe(), "Bool(false)");
        }
        other => panic!("expected a fault but got {:?}", other),
    }
}

#[test]
fn an_operator_without_meaning_for_its_operands_is_unknown() {
    assert_eq!(message("true + false"), "unknown operator: true + false");
    assert_eq!(message("true < false"), "unknown operator: true < false");
    assert_eq!(message("\"a\" == \"a\""), "unknown operator: a == a");
    assert_eq!(message("\"a\" + \"b\""), "unknown operator: a + b");
    assert_eq!(
        message("fn() { 1 } == fn() { 1 }"),
        "unknown operator: fn() { 1 } == fn() { 1 }"
    );
    assert_eq!(
        message("if (false) { 1 } == if (false) { 1 }"),
        "unknown operator: null == null"
    );
    assert_eq!(message("-true"), "unknown operator: -Bool(true)");
    assert_eq!(message("-\"a\""), "unknown operator: -String(\"a\")");
    assert_eq!(message("-if (false) { 1 }"), "unknown operator: -Null");
    match run("-true") {
        Err(EvalError {
            kind: EvalErrorKind::UnknownOperator { operator, lhs, rhs },
            ..
        }) => {
            assert_eq!(operator, TokenKind::Punctuator(Punctuator::Sub));
            assert!(lhs.is_none());
            assert_eq!(rhs.describe(), "Bool(true)");
        }
        other => panic!("expected a fault but got {:?}", other),
    }
}

#[test]
fn a_tree_with_a_token_that_is_no_operator_is_unknown() {
    let odd = Expression::Infix(Box::new(InfixExpression {
        left: Expression::Integer(1),
        operator: TokenKind::Keyword(Keyword::Let),
        right: Expression::Integer(2),
    }));
    let mut arena = Arena::new();
    match monkey::evaluator::eval_expression(&odd, &mut arena, 0, 1) {
        Err(e) => assert_eq!(e.message, "unknown operator: 1 let 2"),
        other => panic!("expected a fault but got {:?}", other),
    }
    let odd = Expression::Prefix(Box::new(PrefixExpression {
        operator: TokenKind::Punctuator(Punctuator::Add),
        right: Expression::Integer(2),
    }));
    match monkey::evaluator::eval_expression(&odd, &mut arena, 0, 1) {
        Err(e) => assert_eq!(e.message, "unknown operator: +Int(2)"),
        other => panic!("expected a fault but got {:?}", other),
    }
}

#[test]
fn the_first_fault_stops_the_evaluation() {
    assert_eq!(message("a + (1 / 0)"), "identifier not found: a");
    assert_eq!(message("(1 / 0) + a"), "division by zero");
    assert_eq!(message("1 / 0; a"), "division by zero");
    let mut arena = Arena::new();
    assert!(run_in("let a = 1; let b = 1 / 0; let c = 3;", &mut arena).is_err());
    assert_eq!(arena.lookup(0, "a").unwrap().describe(), "Int(1)");
    assert!(arena.lookup(0, "b").is_none());
    assert!(arena.lookup(0, "c").is_none());
}

#[test]
fn operators_applied_to_values() {
    let five = || Rc::new(Object::Int(5));
    let three = || Rc::new(Object::Int(3));
    let add = apply_infix(operator(Punctuator::Add), five(), three()).unwrap();
    assert_eq!(add.describe(), "Int(8)");
    let sub = apply_infix(operator(Punctuator::Sub), five(), three()).unwrap();
    assert_eq!(sub.describe(), "Int(2)");
    let mul = apply_infix(operator(Punctuator::Mul), five(), three()).unwrap();
    assert_eq!(mul.describe(), "Int(15)");
    let div = apply_infix(operator(Punctuator::Div), five(), three()).unwrap();
    assert_eq!(div.describe(), "Int(1)");
    let less = apply_infix(operator(Punctuator::LessThan), five(), three()).unwrap();
    assert_eq!(less.describe(), "Bool(false)");
    let greater = apply_infix(operator(Punctuator::GreaterThan), five(), three()).unwrap();
    assert_eq!(greater.describe(), "Bool(true)");
    let equal = apply_infix(operator(Punctuator::Eq), five(), five()).unwrap();
    assert_eq!(equal.describe(), "Bool(true)");
    let unequal = apply_infix(operator(Punctuator::NotEq), five(), five()).unwrap();
    assert_eq!(unequal.describe(), "Bool(false)");
    let negated = apply_prefix(operator(Punctuator::Sub), five()).unwrap();
    assert_eq!(negated.describe(), "Int(-5)");
    let not = apply_prefix(operator(Punctuator::Not), five()).unwrap();
    assert_eq!(not.describe(), "Bool(false)");
    let wrapped = Rc::new(Object::Return(Rc::new(Return { value: five() })));
    let not = apply_prefix(operator(Punctuator::Not), wrapped).unwrap();
    assert_eq!(not.describe(), "Bool(false)");
}

#[test]
fn a_fault_carries_the_message_of_its_kind() {
    let e = EvalError::new(EvalErrorKind::IdentifierNotFound {
        name: "n".to_string(),
    });
    assert_eq!(e.message, "identifier not found: n");
    let e = EvalError::new(EvalErrorKind::ArgumentCountMismatch {
        expected: 12,
        got: 0,
    });
    assert_eq!(e.message, "wrong number of arguments: expected 12, got 0");
    let e = EvalError::new(EvalErrorKind::DivisionByZero);
    assert_eq!(e.message, "division by zero");
    let e = EvalError::new(EvalErrorKind::CallDepthExceeded);
    assert_eq!(e.message, "call depth exceeded");
}

#[test]
fn arithmetic_follows_the_grouping_of_the_tree() {
    assert_eq!(shown("2 + 3 * 4"), "Int(14)");
    assert_eq!(shown("(2 + 3) * 4"), "Int(20)");
    assert_eq!(shown("2 - 3 - 4"), "Int(-5)");
    assert_eq!(shown("2 - (3 - 4)"), "Int(3)");
    assert_eq!(shown("100 / 10 / 5"), "Int(2)");
    assert_eq!(shown("100 / (10 / 5)"), "Int(50)");
    assert_eq!(shown("-2 * -3"), "Int(6)");
    assert_eq!(shown("-(2 + 3) * 4"), "Int(-20)");
    assert_eq!(shown("--5"), "Int(5)");
}
