//! What evaluation means: functions from a tree, the scopes and a budget
//! of nested calls to a value or a fault, and the scopes afterwards.
//!
//! Integer arithmetic wraps around at 64 bits; division truncates towards
//! zero, and division by zero is a fault. Every value but `false` and null
//! counts as true. A `let` yields null. A call runs the body in a fresh
//! scope enclosed by the scope in which the function was made.

use vstd::prelude::*;
use crate::object::{bind, describe, inspect, resolve, Scope, Value};
use crate::parser::node::{Expr, Stmt};
use crate::text::decimal;
use crate::token::{kind_text, Punctuator, TokenKind};

verus! {

/// Why an evaluation failed.
pub enum Fault {
    IdentifierNotFound { name: Seq<char> },
    TypeMismatch { left: Value, operator: TokenKind, right: Value },
    /// An operator without meaning for its operands; `lhs` is absent for a
    /// unary operator.
    UnknownOperator { operator: TokenKind, lhs: Option<Value>, rhs: Value },
    NotCallable { object: Value },
    ArgumentCountMismatch { expected: nat, got: nat },
    DivisionByZero,
    CallDepthExceeded,
}

/// The message of a fault.
pub open spec fn fault_message(fault: Fault) -> Seq<char> {
    match fault {
        Fault::IdentifierNotFound { name } => "identifier not found: "@ + name,
        Fault::TypeMismatch { left, operator, right } => "type mismatch: "@ + describe(left)
            + " "@ + kind_text(operator) + " "@ + describe(right),
        Fault::UnknownOperator { operator, lhs, rhs } => match lhs {
            Some(l) => "unknown operator: "@ + inspect(l) + " "@ + kind_text(operator) + " "@
                + inspect(rhs),
            None => "unknown operator: "@ + kind_text(operator) + describe(rhs),
        },
        Fault::NotCallable { object } => "not a function: "@ + describe(object),
        Fault::ArgumentCountMismatch { expected, got } => "wrong number of arguments: expected "@
            + decimal(expected as int) + ", got "@ + decimal(got as int),
        Fault::DivisionByZero => "division by zero"@,
        Fault::CallDepthExceeded => "call depth exceeded"@,
    }
}

/// A value or a fault, and the scopes as the evaluation left them.
pub struct Outcome {
    pub result: Result<Value, Fault>,
    pub heap: Seq<Scope>,
}

/// The values of a list of arguments or a fault, and the scopes as the
/// evaluation left them.
pub struct ArgumentsOutcome {
    pub result: Result<Seq<Value>, Fault>,
    pub heap: Seq<Scope>,
}

/// Whether a value counts as true: every value but `false` and null does.
pub open spec fn truthy(v: Value) -> bool {
    match v {
        Value::Bool(b) => b,
        Value::Null => false,
        _ => true,
    }
}

/// The value inside all the wrappers that `return` put around it.
pub open spec fn strip_returns(v: Value) -> Value
    decreases v,
{
    match v {
        Value::Return(inner) => strip_returns(*inner),
        _ => v,
    }
}

/// Whether two values are of the same kind.
pub open spec fn same_kind(a: Value, b: Value) -> bool {
    match a {
        Value::Int(_) => b is Int,
        Value::Bool(_) => b is Bool,
        Value::Str(_) => b is Str,
        Value::Return(_) => b is Return,
        Value::Function { .. } => b is Function,
        Value::Null => b is Null,
    }
}

/// The 64-bit signed integer that is congruent to `x` modulo 2^64.
pub open spec fn wrap64(x: int) -> i64 {
    let r = x % 0x1_0000_0000_0000_0000;
    if r > i64::MAX {
        (r - 0x1_0000_0000_0000_0000) as i64
    } else {
        r as i64
    }
}

/// The quotient of `x` by `d` rounded towards zero, for `d` other than
/// zero.
pub open spec fn truncated_quotient(x: int, d: int) -> int {
    if x >= 0 && d > 0 {
        x / d
    } else if x < 0 && d < 0 {
        (-x) / (-d)
    } else if x < 0 {
        -((-x) / d)
    } else {
        -(x / (-d))
    }
}

/// A unary operator applied to a value: `!` negates its truth, `-` negates
/// an integer; anything else is unknown.
pub open spec fn prefix_op(operator: TokenKind, right: Value) -> Result<Value, Fault> {
    match operator {
        TokenKind::Punctuator(Punctuator::Not) => Ok(Value::Bool(!truthy(right))),
        TokenKind::Punctuator(Punctuator::Sub) => match right {
            Value::Int(i) => Ok(Value::Int(wrap64(-i))),
            _ => Err(Fault::UnknownOperator { operator, lhs: None, rhs: right }),
        },
        _ => Err(Fault::UnknownOperator { operator, lhs: None, rhs: right }),
    }
}

/// A binary operator between two integers.
pub open spec fn integer_op(operator: TokenKind, a: i64, b: i64) -> Result<Value, Fault> {
    match operator {
        TokenKind::Punctuator(Punctuator::Add) => Ok(Value::Int(wrap64(a + b))),
        TokenKind::Punctuator(Punctuator::Sub) => Ok(Value::Int(wrap64(a - b))),
        TokenKind::Punctuator(Punctuator::Mul) => Ok(Value::Int(wrap64(a * b))),
        TokenKind::Punctuator(Punctuator::Div) => if b == 0 {
            Err(Fault::DivisionByZero)
        } else {
            Ok(Value::Int(wrap64(truncated_quotient(a as int, b as int))))
        },
        TokenKind::Punctuator(Punctuator::LessThan) => Ok(Value::Bool(a < b)),
        TokenKind::Punctuator(Punctuator::GreaterThan) => Ok(Value::Bool(a > b)),
        TokenKind::Punctuator(Punctuator::Eq) => Ok(Value::Bool(a == b)),
        TokenKind::Punctuator(Punctuator::NotEq) => Ok(Value::Bool(a != b)),
        _ => Err(
            Fault::UnknownOperator { operator, lhs: Some(Value::Int(a)), rhs: Value::Int(b) },
        ),
    }
}

/// A binary operator between two values: arithmetic and comparison on
/// integers, equality on truth values; operands of different kinds are a
/// type mismatch, and anything else is unknown.
pub open spec fn infix_op(operator: TokenKind, left: Value, right: Value) -> Result<Value, Fault> {
    if !same_kind(left, right) {
        Err(Fault::TypeMismatch { left, operator, right })
    } else {
        match (left, right) {
            (Value::Int(a), Value::Int(b)) => integer_op(operator, a, b),
            (Value::Bool(a), Value::Bool(b)) => match operator {
                TokenKind::Punctuator(Punctuator::Eq) => Ok(Value::Bool(a == b)),
                TokenKind::Punctuator(Punctuator::NotEq) => Ok(Value::Bool(a != b)),
                _ => Err(Fault::UnknownOperator { operator, lhs: Some(left), rhs: right }),
            },
            _ => Err(Fault::UnknownOperator { operator, lhs: Some(left), rhs: right }),
        }
    }
}

/// The bindings of the first `n` parameters to the first `n` arguments; of
/// two parameters of one name the later one counts.
pub open spec fn bind_parameters(parameters: Seq<Seq<char>>, arguments: Seq<Value>, n: nat) -> Map<
    Seq<char>,
    Value,
>
    decreases n,
{
    if n == 0 || n > parameters.len() || n > arguments.len() {
        Map::empty()
    } else {
        bind_parameters(parameters, arguments, (n - 1) as nat).insert(
            parameters[n - 1],
            arguments[n - 1],
        )
    }
}

/// The scopes at the start of a call: one more than before, which binds
/// the parameters to the arguments and is enclosed by the scope in which
/// the function was made. A function that names a scope that is not there
/// runs in a scope that nothing encloses.
pub open spec fn enter(
    heap: Seq<Scope>,
    parameters: Seq<Seq<char>>,
    arguments: Seq<Value>,
    captured: nat,
) -> Seq<Scope> {
    heap.push(
        Scope {
            store: bind_parameters(parameters, arguments, parameters.len()),
            outer: Scope::added_behind(heap.len(), captured).outer,
        },
    )
}

/// What leaves a function body or a program: the value without the
/// wrappers of `return`, or the fault.
pub open spec fn leave(body: Outcome) -> Outcome {
    Outcome {
        result: match body.result {
            Ok(v) => Ok(strip_returns(v)),
            Err(fault) => Err(fault),
        },
        heap: body.heap,
    }
}

/// The value of an expression in scope `env`, with `depth` nested calls
/// still allowed.
pub open spec fn eval_expr(e: Expr, heap: Seq<Scope>, env: nat, depth: nat) -> Outcome
    decreases depth, e, 0nat,
{
    match e {
        Expr::Identifier(name) => Outcome {
            result: match resolve(heap, env, name) {
                Some(v) => Ok(v),
                None => Err(Fault::IdentifierNotFound { name }),
            },
            heap,
        },
        Expr::Integer(value) => Outcome { result: Ok(Value::Int(value)), heap },
        Expr::Boolean(value) => Outcome { result: Ok(Value::Bool(value)), heap },
        Expr::Str(text) => Outcome { result: Ok(Value::Str(text)), heap },
        Expr::Prefix { operator, right } => {
            let r = eval_expr(*right, heap, env, depth);
            match r.result {
                Err(_) => r,
                Ok(v) => Outcome { result: prefix_op(operator, v), heap: r.heap },
            }
        },
        Expr::Infix { operator, left, right } => {
            let l = eval_expr(*left, heap, env, depth);
            match l.result {
                Err(_) => l,
                Ok(lv) => {
                    let r = eval_expr(*right, l.heap, env, depth);
                    match r.result {
                        Err(_) => r,
                        Ok(rv) => Outcome { result: infix_op(operator, lv, rv), heap: r.heap },
                    }
                },
            }
        },
        Expr::If { condition, consequence, alternative } => {
            let c = eval_expr(*condition, heap, env, depth);
            match c.result {
                Err(_) => c,
                Ok(v) => if truthy(v) {
                    eval_statements(consequence, 0, Value::Null, c.heap, env, depth)
                } else {
                    match alternative {
                        Some(block) => eval_statements(block, 0, Value::Null, c.heap, env, depth),
                        None => Outcome { result: Ok(Value::Null), heap: c.heap },
                    }
                },
            }
        },
        Expr::Function { parameters, body } => Outcome {
            result: Ok(Value::Function { parameters, body, env }),
            heap,
        },
        Expr::Call { function, arguments } => {
            let f = eval_expr(*function, heap, env, depth);
            match f.result {
                Err(_) => f,
                Ok(callee) => match callee {
                    Value::Function { parameters, body, env: captured } => {
                        let a = eval_arguments(arguments, 0, Seq::empty(), f.heap, env, depth);
                        match a.result {
                            Err(fault) => Outcome { result: Err(fault), heap: a.heap },
                            Ok(values) => if values.len() != parameters.len() {
                                Outcome {
                                    result: Err(
                                        Fault::ArgumentCountMismatch {
                                            expected: parameters.len(),
                                            got: values.len(),
                                        },
                                    ),
                                    heap: a.heap,
                                }
                            } else if depth == 0 {
                                Outcome { result: Err(Fault::CallDepthExceeded), heap: a.heap }
                            } else {
                                leave(
                                    eval_statements(
                                        body,
                                        0,
                                        Value::Null,
                                        enter(a.heap, parameters, values, captured),
                                        a.heap.len(),
                                        (depth - 1) as nat,
                                    ),
                                )
                            },
                        }
                    },
                    _ => Outcome { result: Err(Fault::NotCallable { object: callee }), heap: f.heap },
                },
            }
        },
    }
}

/// The values of the arguments from index `from` on, behind those in
/// `acc`, each evaluated in the scopes that the one before it left.
pub open spec fn eval_arguments(
    arguments: Seq<Expr>,
    from: nat,
    acc: Seq<Value>,
    heap: Seq<Scope>,
    env: nat,
    depth: nat,
) -> ArgumentsOutcome
    decreases depth, arguments, arguments.len() - from,
{
    if from >= arguments.len() {
        ArgumentsOutcome { result: Ok(acc), heap }
    } else {
        let o = eval_expr(arguments[from as int], heap, env, depth);
        match o.result {
            Err(fault) => ArgumentsOutcome { result: Err(fault), heap: o.heap },
            Ok(v) => eval_arguments(arguments, from + 1, acc.push(v), o.heap, env, depth),
        }
    }
}

/// The outcome of a statement in scope `env`.
pub open spec fn eval_stmt(s: Stmt, heap: Seq<Scope>, env: nat, depth: nat) -> Outcome
    decreases depth, s, 0nat,
{
    match s {
        Stmt::Let { name, value } => {
            let o = eval_expr(value, heap, env, depth);
            match o.result {
                Err(_) => o,
                Ok(v) => Outcome { result: Ok(Value::Null), heap: bind(o.heap, env, name, v) },
            }
        },
        Stmt::Return { argument } => match argument {
            None => Outcome { result: Ok(Value::Return(Box::new(Value::Null))), heap },
            Some(value) => {
                let o = eval_expr(value, heap, env, depth);
                match o.result {
                    Err(_) => o,
                    Ok(v) => Outcome { result: Ok(Value::Return(Box::new(v))), heap: o.heap },
                }
            },
        },
        Stmt::Expression { expression } => eval_expr(expression, heap, env, depth),
        Stmt::Block { statements } => eval_statements(
            statements,
            0,
            Value::Null,
            heap,
            env,
            depth,
        ),
    }
}

/// The outcome of the statements from index `from` on, where `last` is the
/// value of the statement before them: the value of the last statement, or
/// the first fault or wrapped value, at which the run stops.
pub open spec fn eval_statements(
    statements: Seq<Stmt>,
    from: nat,
    last: Value,
    heap: Seq<Scope>,
    env: nat,
    depth: nat,
) -> Outcome
    decreases depth, statements, statements.len() - from,
{
    if from >= statements.len() {
        Outcome { result: Ok(last), heap }
    } else {
        let o = eval_stmt(statements[from as int], heap, env, depth);
        match o.result {
            Err(_) => o,
            Ok(v) => if v is Return {
                o
            } else {
                eval_statements(statements, from + 1, v, o.heap, env, depth)
            },
        }
    }
}

/// The outcome of a program in scope `env`: that of its statements, the
/// value without the wrappers of `return`.
pub open spec fn eval_program(program: Seq<Stmt>, heap: Seq<Scope>, env: nat, depth: nat) -> Outcome {
    leave(eval_statements(program, 0, Value::Null, heap, env, depth))
}

} // verus!
