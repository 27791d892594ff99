use std::rc::Rc;

use monkey::object::{Arena, Environment, Function, Object, Return};
use monkey::parser::node::{BlockStatement, Expression, ExpressionStatement, Statement};
use monkey::parser::parse;

fn number(value: i64) -> Rc<Object> {
    Rc::new(Object::Int(value))
}

fn function_of(input: &str, env: usize) -> Function {
    let mut program = parse(input).unwrap();
    match program.body.pop() {
        Some(Statement::Expression(ExpressionStatement {
            expression: Expression::Function(literal),
        })) => Function {
            parameters: literal.parameters,
            body: literal.body,
            env,
        },
        other => panic!("no function literal in {}: {:?}", input, other),
    }
}

#[test]
fn values_are_displayed() {
    assert_eq!(Object::Int(5).inspect(), "5");
    assert_eq!(Object::Int(-12).inspect(), "-12");
    assert_eq!(Object::Int(i64::MIN).inspect(), "-9223372036854775808");
    assert_eq!(Object::Bool(true).inspect(), "true");
    assert_eq!(Object::Bool(false).inspect(), "false");
    assert_eq!(Object::String("foo bar".to_string()).inspect(), "foo bar");
    assert_eq!(Object::String(String::new()).inspect(), "");
    assert_eq!(Object::Null.inspect(), "null");
}

#[test]
fn a_returned_value_is_displayed_as_the_value() {
    let wrapped = Object::Return(Rc::new(Return { value: number(7) }));
    assert_eq!(wrapped.inspect(), "7");
    let twice = Object::Return(Rc::new(Return {
        value: Rc::new(wrapped),
    }));
    assert_eq!(twice.inspect(), "7");
}

#[test]
fn a_function_is_displayed_as_its_source() {
    let f = function_of("fn(x, y) { x + y }", 0);
    assert_eq!(f.inspect(), "fn(x, y) { (x + y) }");
    assert_eq!(
        Object::Function(Rc::new(f)).inspect(),
        "fn(x, y) { (x + y) }"
    );
    let g = function_of("fn() { }", 0);
    assert_eq!(g.inspect(), "fn() {  }");
    let h = function_of(
        "fn(n) { let m = -n; if (m < 1) { return \"s\"; } else { f(m, !true) } }",
        3,
    );
    assert_eq!(
        h.inspect(),
        "fn(n) { let m = (-n); if ((m < 1)) { return \"s\" } else { f(m, (!true)) } }"
    );
}

#[test]
fn the_statements_of_a_body_are_separated() {
    let f = function_of("fn(a, b) { let c = a; c; return b; }", 0);
    assert_eq!(f.inspect(), "fn(a, b) { let c = a; c; return b }");
    let g = function_of("fn() { return; 1 }", 0);
    assert_eq!(g.inspect(), "fn() { return; 1 }");
    let h = function_of("fn(x) { x }", 0);
    assert_eq!(h.inspect(), "fn(x) { x }");
}

#[test]
fn a_clone_of_a_function_is_equal_to_the_function() {
    let f = function_of("fn(a, b) { let c = a; c + b }", 2);
    let g = f.clone();
    assert_eq!(g, f);
    assert_eq!(g.inspect(), "fn(a, b) { let c = a; (c + b) }");
    assert_eq!(g.env, 2);
}

#[test]
fn a_function_without_a_body_is_displayed() {
    let f = Function {
        parameters: vec!["a".to_string()],
        body: BlockStatement { statements: vec![] },
        env: 0,
    };
    assert_eq!(f.inspect(), "fn(a) {  }");
}

#[test]
fn values_are_described_with_their_kind() {
    assert_eq!(Object::Int(5).describe(), "Int(5)");
    assert_eq!(Object::Bool(true).describe(), "Bool(true)");
    assert_eq!(Object::String("a".to_string()).describe(), "String(\"a\")");
    assert_eq!(Object::Null.describe(), "Null");
    let wrapped = Object::Return(Rc::new(Return { value: number(7) }));
    assert_eq!(wrapped.describe(), "Return(Int(7))");
    let f = function_of("fn(x) { x }", 0);
    assert_eq!(
        Object::Function(Rc::new(f)).describe(),
        "Function(fn(x) { x })"
    );
}

#[test]
fn a_new_environment_binds_nothing() {
    let env = Environment::new();
    assert!(env.get("a").is_none());
    assert!(env.get("").is_none());
    assert!(env.outer.is_none());
}

#[test]
fn what_is_set_can_be_got() {
    let mut env = Environment::new();
    env.set("a".to_string(), number(1));
    env.set("b".to_string(), number(2));
    assert_eq!(env.get("a").unwrap().inspect(), "1");
    assert_eq!(env.get("b").unwrap().inspect(), "2");
    assert!(env.get("c").is_none());
}

#[test]
fn a_later_binding_replaces_an_earlier_one() {
    let mut env = Environment::new();
    env.set("a".to_string(), number(1));
    env.set("a".to_string(), Rc::new(Object::Bool(true)));
    assert_eq!(env.get("a").unwrap().inspect(), "true");
}

#[test]
fn a_got_value_is_the_value_that_was_set() {
    let mut env = Environment::new();
    let value = number(41);
    env.set("a".to_string(), Rc::clone(&value));
    let got = env.get("a").unwrap();
    assert!(Rc::ptr_eq(&got, &value));
}

#[test]
fn an_enclosed_environment_names_its_outer_scope() {
    let env = Environment::enclosed(4);
    assert_eq!(env.outer, Some(4));
    assert!(env.get("a").is_none());
}

#[test]
fn a_new_arena_has_an_empty_root() {
    let arena = Arena::new();
    assert_eq!(arena.len(), 1);
    assert!(arena.lookup(0, "a").is_none());
    assert!(arena.outer_of(0).is_none());
}

#[test]
fn names_resolve_outwards() {
    let mut arena = Arena::new();
    arena.define(0, "a".to_string(), number(1));
    arena.define(0, "b".to_string(), number(2));
    let inner = arena.open_scope(0);
    assert_eq!(inner, 1);
    arena.define(inner, "b".to_string(), number(20));
    let innermost = arena.open_scope(inner);
    assert_eq!(innermost, 2);
    arena.define(innermost, "c".to_string(), number(300));

    assert_eq!(arena.lookup(innermost, "a").unwrap().inspect(), "1");
    assert_eq!(arena.lookup(innermost, "b").unwrap().inspect(), "20");
    assert_eq!(arena.lookup(innermost, "c").unwrap().inspect(), "300");
    assert_eq!(arena.lookup(inner, "b").unwrap().inspect(), "20");
    assert!(arena.lookup(inner, "c").is_none());
    assert_eq!(arena.lookup(0, "b").unwrap().inspect(), "2");
    assert!(arena.lookup(0, "c").is_none());
}

#[test]
fn sibling_scopes_do_not_see_each_other() {
    let mut arena = Arena::new();
    let left = arena.open_scope(0);
    let right = arena.open_scope(0);
    arena.define(left, "x".to_string(), number(1));
    assert_eq!(arena.lookup(left, "x").unwrap().inspect(), "1");
    assert!(arena.lookup(right, "x").is_none());
    assert!(arena.lookup(0, "x").is_none());
}

#[test]
fn a_binding_in_the_outer_scope_is_seen_from_inside_at_once() {
    let mut arena = Arena::new();
    let inner = arena.open_scope(0);
    assert!(arena.lookup(inner, "late").is_none());
    arena.define(0, "late".to_string(), number(9));
    assert_eq!(arena.lookup(inner, "late").unwrap().inspect(), "9");
}

#[test]
fn a_scope_that_is_not_there_binds_and_sees_nothing() {
    let mut arena = Arena::new();
    arena.define(5, "a".to_string(), number(1));
    assert_eq!(arena.len(), 1);
    assert!(arena.lookup(5, "a").is_none());
    assert!(arena.lookup(0, "a").is_none());
}

#[test]
fn a_scope_is_enclosed_only_by_a_scope_that_is_there() {
    let mut arena = Arena::new();
    let odd = arena.open_scope(7);
    assert_eq!(arena.outer_of(odd), None);
    arena.define(0, "a".to_string(), number(1));
    assert!(arena.lookup(odd, "a").is_none());
    let own = arena.open_scope(2);
    assert_eq!(own, 2);
    assert_eq!(arena.outer_of(own), None);
    assert!(arena.lookup(own, "a").is_none());
    let inner = arena.open_scope(odd);
    assert_eq!(arena.outer_of(inner), Some(odd));
}

#[test]
fn every_scope_is_enclosed_by_an_earlier_one_or_by_none() {
    let mut arena = Arena::new();
    let asked = [0, 0, 1, 7, 2, 5, 100, 3];
    for outer in asked {
        arena.open_scope(outer);
    }
    for index in 0..arena.len() {
        match arena.outer_of(index) {
            Some(outer) => assert!(outer < index),
            None => {}
        }
    }
    assert_eq!(arena.outer_of(1), Some(0));
    assert_eq!(arena.outer_of(4), None);
    assert_eq!(arena.outer_of(6), Some(5));
    assert_eq!(arena.outer_of(7), None);
    assert_eq!(arena.outer_of(8), Some(3));
    assert_eq!(arena.outer_of(9), None);
}

#[test]
fn a_chain_of_scopes_is_walked_to_its_end() {
    let mut arena = Arena::new();
    arena.define(0, "deep".to_string(), number(1));
    let mut scope = 0;
    for _ in 0..50 {
        scope = arena.open_scope(scope);
    }
    assert_eq!(arena.lookup(scope, "deep").unwrap().inspect(), "1");
    arena.define(25, "deep".to_string(), number(2));
    assert_eq!(arena.lookup(scope, "deep").unwrap().inspect(), "2");
    assert_eq!(arena.lookup(24, "deep").unwrap().inspect(), "1");
    assert!(arena.lookup(scope, "absent").is_none());
}
