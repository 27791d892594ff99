//! The evaluator: a tree walked against the scopes of an arena.
//!
//! Each function here computes the function of [`semantics`] that its
//! contract names, on the views of its arguments. An evaluation ends in a
//! value or in the first fault; it never panics. Calls nest only as deeply
//! as the caller allows, so that every evaluation ends. The walk itself
//! recurses along the tree: how deeply a tree may nest is left to the stack
//! of the machine.

pub mod laws;
pub mod nesting;
pub mod semantics;
pub mod sources;

use vstd::prelude::*;
use std::rc::Rc;
use crate::evaluator::semantics::{
    bind_parameters,
    enter,
    fault_message,
    Fault,
};
use crate::object::{links_inward, share, Arena, Function, Object, Return, Scope, Value};
use crate::parser::node::{
    copy_names,
    expressions_view,
    lemma_expressions_view,
    lemma_statements_view,
    names_view,
    statements_view,
    CallExpression,
    Expression,
    IfExpression,
    Program,
    Statement,
};
use crate::text::push_digits;
use crate::token::{Punctuator, TokenKind};

verus! {

/// How many calls may be nested in an evaluation that names no limit.
pub const DEFAULT_CALL_DEPTH: usize = 256;

/// Why an evaluation failed.
#[derive(Debug)]
pub enum EvalErrorKind {
    /// No scope from the current one outwards binds the name.
    IdentifierNotFound { name: String },
    /// A binary operator between values of different kinds.
    TypeMismatch { left: Rc<Object>, operator: TokenKind, right: Rc<Object> },
    /// An operator without meaning for its operands; `lhs` is absent for a
    /// unary operator.
    UnknownOperator { operator: TokenKind, lhs: Option<Rc<Object>>, rhs: Rc<Object> },
    /// A call of a value that is no function.
    NotCallable { object: Rc<Object> },
    /// A call with more or fewer arguments than the function has
    /// parameters.
    ArgumentCountMismatch { expected: usize, got: usize },
    /// An integer division by zero.
    DivisionByZero,
    /// More calls were nested than the evaluation allows.
    CallDepthExceeded,
}

impl View for EvalErrorKind {
    type V = Fault;

    open spec fn view(&self) -> Fault {
        match self {
            EvalErrorKind::IdentifierNotFound { name } => Fault::IdentifierNotFound { name: name@ },
            EvalErrorKind::TypeMismatch { left, operator, right } => Fault::TypeMismatch {
                left: left@,
                operator: *operator,
                right: right@,
            },
            EvalErrorKind::UnknownOperator { operator, lhs, rhs } => Fault::UnknownOperator {
                operator: *operator,
                lhs: match lhs {
                    Some(l) => Some(l@),
                    None => None,
                },
                rhs: rhs@,
            },
            EvalErrorKind::NotCallable { object } => Fault::NotCallable { object: object@ },
            EvalErrorKind::ArgumentCountMismatch { expected, got } => Fault::ArgumentCountMismatch {
                expected: *expected as nat,
                got: *got as nat,
            },
            EvalErrorKind::DivisionByZero => Fault::DivisionByZero,
            EvalErrorKind::CallDepthExceeded => Fault::CallDepthExceeded,
        }
    }
}

/// A failed evaluation: what went wrong, and the message that says so.
#[derive(Debug)]
pub struct EvalError {
    pub kind: EvalErrorKind,
    pub message: String,
}

impl EvalError {
    /// Whether the message is the one that belongs to the kind.
    pub open spec fn wf(&self) -> bool {
        self.message@ == fault_message(self.kind@)
    }

    /// The error of the given kind, with its message.
    #[verifier::rlimit(40)]
    pub fn new(kind: EvalErrorKind) -> (r: EvalError)
        ensures
            r.kind == kind,
            r.wf(),
    {
        let mut message = String::new();
        match &kind {
            EvalErrorKind::IdentifierNotFound { name } => {
                message.append("identifier not found: ");
                message.append(name.as_str());
            },
            EvalErrorKind::TypeMismatch { left, operator, right } => {
                message.append("type mismatch: ");
                left.write_describe(&mut message);
                message.append(" ");
                message.append(operator.text());
                message.append(" ");
                right.write_describe(&mut message);
            },
            EvalErrorKind::UnknownOperator { operator, lhs, rhs } => {
                message.append("unknown operator: ");
                match lhs {
                    Some(l) => {
                        l.write_inspect(&mut message);
                        message.append(" ");
                        message.append(operator.text());
                        message.append(" ");
                        rhs.write_inspect(&mut message);
                    },
                    None => {
                        message.append(operator.text());
                        rhs.write_describe(&mut message);
                    },
                }
            },
            EvalErrorKind::NotCallable { object } => {
                message.append("not a function: ");
                object.write_describe(&mut message);
            },
            EvalErrorKind::ArgumentCountMismatch { expected, got } => {
                message.append("wrong number of arguments: expected ");
                push_digits(&mut message, *expected as u64);
                message.append(", got ");
                push_digits(&mut message, *got as u64);
            },
            EvalErrorKind::DivisionByZero => {
                message.append("division by zero");
            },
            EvalErrorKind::CallDepthExceeded => {
                message.append("call depth exceeded");
            },
        }
        assert(message@ =~= fault_message(kind@));
        EvalError { kind, message }
    }
}

/// The mathematical content of the result of an evaluation.
pub open spec fn result_view(r: Result<Rc<Object>, EvalError>) -> Result<Value, Fault> {
    match r {
        Ok(o) => Ok(o@),
        Err(e) => Err(e.kind@),
    }
}

/// Whether a failed evaluation carries the message of its fault.
pub open spec fn with_message(r: Result<Rc<Object>, EvalError>) -> bool {
    r matches Err(e) ==> e.wf()
}

/// The views of a list of values, in order.
pub open spec fn values_view(values: Seq<Rc<Object>>) -> Seq<Value> {
    Seq::new(values.len(), |i: int| values[i]@)
}

/// Whether a value counts as true.
pub fn is_truthy(o: &Object) -> (r: bool)
    ensures
        r == semantics::truthy(o@),
{
    match o {
        Object::Bool(b) => *b,
        Object::Null => false,
        _ => true,
    }
}

/// Whether a value is on its way out of the blocks that enclose a
/// `return`.
pub fn is_return(o: &Object) -> (r: bool)
    ensures
        r == (o@ is Return),
{
    match o {
        Object::Return(_) => true,
        _ => false,
    }
}

/// Whether two values are of the same kind.
pub fn same_kind(a: &Object, b: &Object) -> (r: bool)
    ensures
        r == semantics::same_kind(a@, b@),
{
    match a {
        Object::Int(_) => match b {
            Object::Int(_) => true,
            _ => false,
        },
        Object::Bool(_) => match b {
            Object::Bool(_) => true,
            _ => false,
        },
        Object::String(_) => match b {
            Object::String(_) => true,
            _ => false,
        },
        Object::Return(_) => match b {
            Object::Return(_) => true,
            _ => false,
        },
        Object::Function(_) => match b {
            Object::Function(_) => true,
            _ => false,
        },
        Object::Null => match b {
            Object::Null => true,
            _ => false,
        },
    }
}

/// The value in the wrapper that carries it out of the enclosing blocks.
pub fn wrap_return(v: Rc<Object>) -> (r: Rc<Object>)
    ensures
        r@ == Value::Return(Box::new(v@)),
{
    Rc::new(Object::Return(Rc::new(Return { value: v })))
}

/// The value inside all the wrappers that `return` put around it.
pub fn unwrap_returns(o: Rc<Object>) -> (r: Rc<Object>)
    ensures
        r@ == semantics::strip_returns(o@),
    decreases o,
{
    let inner = match &*o {
        Object::Return(wrapped) => Some(share(&wrapped.value)),
        _ => None,
    };
    match inner {
        Some(v) => unwrap_returns(v),
        None => o,
    }
}

/// A unary operator applied to a value.
pub fn apply_prefix(operator: TokenKind, right: Rc<Object>) -> (r: Result<Rc<Object>, EvalError>)
    ensures
        result_view(r) == semantics::prefix_op(operator, right@),
        with_message(r),
{
    match operator {
        TokenKind::Punctuator(Punctuator::Not) => Ok(Rc::new(Object::Bool(!is_truthy(&right)))),
        TokenKind::Punctuator(Punctuator::Sub) => {
            let negated = match &*right {
                Object::Int(i) => Some(0i64.wrapping_sub(*i)),
                _ => None,
            };
            match negated {
                Some(n) => Ok(Rc::new(Object::Int(n))),
                None => Err(
                    EvalError::new(EvalErrorKind::UnknownOperator { operator, lhs: None, rhs: right }),
                ),
            }
        },
        _ => Err(EvalError::new(EvalErrorKind::UnknownOperator { operator, lhs: None, rhs: right })),
    }
}

/// The quotient of two integers rounded towards zero, wrapped to 64 bits.
fn wrapping_quotient(a: i64, b: i64) -> (q: i64)
    requires
        b != 0,
    ensures
        q == semantics::wrap64(semantics::truncated_quotient(a as int, b as int)),
{
    match a.checked_div(b) {
        Some(q) => q,
        None => i64::MIN,
    }
}

/// A binary operator between two values.
#[verifier::rlimit(40)]
pub fn apply_infix(operator: TokenKind, left: Rc<Object>, right: Rc<Object>) -> (r: Result<
    Rc<Object>,
    EvalError,
>)
    ensures
        result_view(r) == semantics::infix_op(operator, left@, right@),
        with_message(r),
{
    if !same_kind(&left, &right) {
        return Err(EvalError::new(EvalErrorKind::TypeMismatch { left, operator, right }));
    }
    let computed: Option<Result<Object, bool>> = match &*left {
        Object::Int(a) => match &*right {
            Object::Int(b) => match operator {
                TokenKind::Punctuator(Punctuator::Add) => Some(Ok(Object::Int(a.wrapping_add(*b)))),
                TokenKind::Punctuator(Punctuator::Sub) => Some(Ok(Object::Int(a.wrapping_sub(*b)))),
                TokenKind::Punctuator(Punctuator::Mul) => Some(Ok(Object::Int(a.wrapping_mul(*b)))),
                TokenKind::Punctuator(Punctuator::Div) => if *b == 0 {
                    Some(Err(true))
                } else {
                    Some(Ok(Object::Int(wrapping_quotient(*a, *b))))
                },
                TokenKind::Punctuator(Punctuator::LessThan) => Some(Ok(Object::Bool(*a < *b))),
                TokenKind::Punctuator(Punctuator::GreaterThan) => Some(Ok(Object::Bool(*a > *b))),
                TokenKind::Punctuator(Punctuator::Eq) => Some(Ok(Object::Bool(*a == *b))),
                TokenKind::Punctuator(Punctuator::NotEq) => Some(Ok(Object::Bool(*a != *b))),
                _ => None,
            },
            _ => None,
        },
        Object::Bool(a) => match &*right {
            Object::Bool(b) => match operator {
                TokenKind::Punctuator(Punctuator::Eq) => Some(Ok(Object::Bool(*a == *b))),
                TokenKind::Punctuator(Punctuator::NotEq) => Some(Ok(Object::Bool(*a != *b))),
                _ => None,
            },
            _ => None,
        },
        _ => None,
    };
    match computed {
        Some(Ok(value)) => Ok(Rc::new(value)),
        Some(Err(_)) => Err(EvalError::new(EvalErrorKind::DivisionByZero)),
        None => Err(
            EvalError::new(EvalErrorKind::UnknownOperator { operator, lhs: Some(left), rhs: right }),
        ),
    }
}

/// The value of an expression in scope `env`, with `depth` nested calls
/// still allowed.
#[verifier::rlimit(40)]
pub fn eval_expression(e: &Expression, arena: &mut Arena, env: usize, depth: usize) -> (r: Result<
    Rc<Object>,
    EvalError,
>)
    ensures
        result_view(r) == semantics::eval_expr(
            e@,
            old(arena)@,
            env as nat,
            depth as nat,
        ).result,
        final(arena)@ == semantics::eval_expr(e@, old(arena)@, env as nat, depth as nat).heap,
        with_message(r),
    decreases depth, e,
{
    match e {
        Expression::Identifier(name) => match arena.lookup(env, name.as_str()) {
            Some(o) => Ok(o),
            None => Err(
                EvalError::new(EvalErrorKind::IdentifierNotFound { name: name.clone() }),
            ),
        },
        Expression::Integer(value) => Ok(Rc::new(Object::Int(*value))),
        Expression::Boolean(value) => Ok(Rc::new(Object::Bool(*value))),
        Expression::String(text) => Ok(Rc::new(Object::String(text.clone()))),
        Expression::Prefix(p) => match eval_expression(&p.right, arena, env, depth) {
            Err(e) => Err(e),
            Ok(right) => apply_prefix(p.operator, right),
        },
        Expression::Infix(x) => match eval_expression(&x.left, arena, env, depth) {
            Err(e) => Err(e),
            Ok(left) => match eval_expression(&x.right, arena, env, depth) {
                Err(e) => Err(e),
                Ok(right) => apply_infix(x.operator, left, right),
            },
        },
        Expression::If(c) => eval_if(c, arena, env, depth),
        Expression::Function(f) => Ok(
            Rc::new(
                Object::Function(
                    Rc::new(
                        Function {
                            parameters: copy_names(&f.parameters),
                            body: f.body.duplicate(),
                            env,
                        },
                    ),
                ),
            ),
        ),
        Expression::Call(c) => eval_call(c, arena, env, depth),
    }
}

/// The value of a conditional.
pub fn eval_if(c: &IfExpression, arena: &mut Arena, env: usize, depth: usize) -> (r: Result<
    Rc<Object>,
    EvalError,
>)
    ensures
        result_view(r) == semantics::eval_expr(
            c@,
            old(arena)@,
            env as nat,
            depth as nat,
        ).result,
        final(arena)@ == semantics::eval_expr(
            c@,
            old(arena)@,
            env as nat,
            depth as nat,
        ).heap,
        with_message(r),
    decreases depth, c,
{
    match eval_expression(&c.condition, arena, env, depth) {
        Err(e) => Err(e),
        Ok(condition) => {
            if is_truthy(&condition) {
                eval_block(&c.consequence.statements, arena, env, depth)
            } else {
                match &c.alternative {
                    Some(block) => eval_block(&block.statements, arena, env, depth),
                    None => Ok(Rc::new(Object::Null)),
                }
            }
        },
    }
}

/// The values of the arguments of a call, in order.
#[verifier::loop_isolation(false)]
pub fn eval_arguments(list: &Vec<Expression>, arena: &mut Arena, env: usize, depth: usize) -> (r:
    Result<Vec<Rc<Object>>, EvalError>)
    ensures
        match r {
            Ok(values) => Ok::<Seq<Value>, Fault>(values_view(values@)),
            Err(e) => Err(e.kind@),
        } == semantics::eval_arguments(
            expressions_view(*list),
            0,
            Seq::empty(),
            old(arena)@,
            env as nat,
            depth as nat,
        ).result,
        final(arena)@ == semantics::eval_arguments(
            expressions_view(*list),
            0,
            Seq::empty(),
            old(arena)@,
            env as nat,
            depth as nat,
        ).heap,
        r matches Err(e) ==> e.wf(),
    decreases depth, list,
{
    let ghost args = expressions_view(*list);
    let ghost goal = semantics::eval_arguments(
        args,
        0,
        Seq::empty(),
        old(arena)@,
        env as nat,
        depth as nat,
    );
    proof {
        lemma_expressions_view(*list);
    }
    let mut values: Vec<Rc<Object>> = Vec::new();
    assert(values_view(values@) =~= Seq::<Value>::empty());
    let mut i: usize = 0;
    while i < list.len()
        invariant
            i <= list.len(),
            semantics::eval_arguments(
                args,
                i as nat,
                values_view(values@),
                arena@,
                env as nat,
                depth as nat,
            ) == goal,
        decreases list.len() - i,
    {
        proof {
            assert(decreases_to!(list => list[i as int]));
        }
        let ghost before = values_view(values@);
        match eval_expression(&list[i], arena, env, depth) {
            Err(e) => {
                return Err(e);
            },
            Ok(v) => {
                values.push(v);
                assert(values_view(values@) =~= before.push(v@));
            },
        }
        i = i + 1;
    }
    Ok(values)
}

/// The value of a call.
#[verifier::rlimit(40)]
#[verifier::loop_isolation(false)]
pub fn eval_call(c: &CallExpression, arena: &mut Arena, env: usize, depth: usize) -> (r: Result<
    Rc<Object>,
    EvalError,
>)
    ensures
        result_view(r) == semantics::eval_expr(
            c@,
            old(arena)@,
            env as nat,
            depth as nat,
        ).result,
        final(arena)@ == semantics::eval_expr(
            c@,
            old(arena)@,
            env as nat,
            depth as nat,
        ).heap,
        with_message(r),
    decreases depth, c,
{
    let callee = match eval_expression(&c.function, arena, env, depth) {
        Err(e) => {
            return Err(e);
        },
        Ok(o) => o,
    };
    match &*callee {
        Object::Function(f) => {
            let values = match eval_arguments(&c.arguments, arena, env, depth) {
                Err(e) => {
                    return Err(e);
                },
                Ok(values) => values,
            };
            let ghost parameters = names_view(f.parameters@);
            let ghost arguments = values_view(values@);
            let ghost after = arena@;
            if values.len() != f.parameters.len() {
                return Err(
                    EvalError::new(
                        EvalErrorKind::ArgumentCountMismatch {
                            expected: f.parameters.len(),
                            got: values.len(),
                        },
                    ),
                );
            }
            if depth == 0 {
                return Err(EvalError::new(EvalErrorKind::CallDepthExceeded));
            }
            let scope = arena.open_scope(f.env);
            let mut i: usize = 0;
            assert(arena@ =~= after.push(
                Scope {
                    store: bind_parameters(parameters, arguments, 0),
                    outer: Scope::added_behind(after.len(), f.env as nat).outer,
                },
            ));
            while i < f.parameters.len()
                invariant
                    i <= f.parameters.len(),
                    values.len() == f.parameters.len(),
                    scope == after.len(),
                    arena@ == after.push(
                        Scope {
                            store: bind_parameters(parameters, arguments, i as nat),
                            outer: Scope::added_behind(after.len(), f.env as nat).outer,
                        },
                    ),
                decreases f.parameters.len() - i,
            {
                arena.define(scope, f.parameters[i].clone(), share(&values[i]));
                i = i + 1;
                assert(arena@ =~= after.push(
                    Scope {
                        store: bind_parameters(parameters, arguments, i as nat),
                        outer: Scope::added_behind(after.len(), f.env as nat).outer,
                    },
                ));
            }
            assert(arena@ == enter(after, parameters, arguments, f.env as nat));
            match eval_block(&f.body.statements, arena, scope, depth - 1) {
                Err(e) => Err(e),
                Ok(v) => Ok(unwrap_returns(v)),
            }
        },
        _ => Err(EvalError::new(EvalErrorKind::NotCallable { object: share(&callee) })),
    }
}

/// The outcome of a statement in scope `env`.
#[verifier::rlimit(40)]
pub fn eval_statement(s: &Statement, arena: &mut Arena, env: usize, depth: usize) -> (r: Result<
    Rc<Object>,
    EvalError,
>)
    ensures
        result_view(r) == semantics::eval_stmt(s@, old(arena)@, env as nat, depth as nat).result,
        final(arena)@ == semantics::eval_stmt(s@, old(arena)@, env as nat, depth as nat).heap,
        with_message(r),
    decreases depth, s,
{
    match s {
        Statement::Let(l) => match eval_expression(&l.value, arena, env, depth) {
            Err(e) => Err(e),
            Ok(v) => {
                arena.define(env, l.name.clone(), v);
                Ok(Rc::new(Object::Null))
            },
        },
        Statement::Return(r) => match &r.value {
            None => Ok(wrap_return(Rc::new(Object::Null))),
            Some(value) => match eval_expression(value, arena, env, depth) {
                Err(e) => Err(e),
                Ok(v) => Ok(wrap_return(v)),
            },
        },
        Statement::Expression(x) => eval_expression(&x.expression, arena, env, depth),
        Statement::Block(b) => eval_block(&b.statements, arena, env, depth),
    }
}

/// The outcome of a run of statements in scope `env`: the value of the
/// last one, or the first fault or wrapped value, at which the run stops.
#[verifier::loop_isolation(false)]
pub fn eval_block(list: &Vec<Statement>, arena: &mut Arena, env: usize, depth: usize) -> (r: Result<
    Rc<Object>,
    EvalError,
>)
    ensures
        result_view(r) == semantics::eval_statements(
            statements_view(*list),
            0,
            Value::Null,
            old(arena)@,
            env as nat,
            depth as nat,
        ).result,
        final(arena)@ == semantics::eval_statements(
            statements_view(*list),
            0,
            Value::Null,
            old(arena)@,
            env as nat,
            depth as nat,
        ).heap,
        with_message(r),
    decreases depth, list,
{
    let ghost statements = statements_view(*list);
    let ghost goal = semantics::eval_statements(
        statements,
        0,
        Value::Null,
        old(arena)@,
        env as nat,
        depth as nat,
    );
    proof {
        lemma_statements_view(*list);
    }
    let mut last: Rc<Object> = Rc::new(Object::Null);
    let mut i: usize = 0;
    while i < list.len()
        invariant
            i <= list.len(),
            semantics::eval_statements(
                statements,
                i as nat,
                last@,
                arena@,
                env as nat,
                depth as nat,
            ) == goal,
        decreases list.len() - i,
    {
        proof {
            assert(decreases_to!(list => list[i as int]));
        }
        match eval_statement(&list[i], arena, env, depth) {
            Err(e) => {
                return Err(e);
            },
            Ok(v) => {
                if is_return(&v) {
                    return Ok(v);
                }
                last = v;
            },
        }
        i = i + 1;
    }
    Ok(last)
}

/// The outcome of a program in scope `env` of the arena, with `depth`
/// nested calls allowed.
pub fn eval_in(program: &Program, arena: &mut Arena, env: usize, depth: usize) -> (r: Result<
    Rc<Object>,
    EvalError,
>)
    ensures
        result_view(r) == semantics::eval_program(
            program@,
            old(arena)@,
            env as nat,
            depth as nat,
        ).result,
        final(arena)@ == semantics::eval_program(
            program@,
            old(arena)@,
            env as nat,
            depth as nat,
        ).heap,
        with_message(r),
        laws::sound(old(arena)@) && env < old(arena)@.len() ==> laws::sound(final(arena)@),
        links_inward(old(arena)@),
        links_inward(final(arena)@),
        laws::grown_from(final(arena)@, old(arena)@, env as nat),
{
    proof {
        use_type_invariant(&*arena);
        if laws::sound(arena@) && env < arena@.len() {
            laws::law_program_keeps_sound(program@, arena@, env as nat, depth as nat);
        }
        laws::law_program_keeps_other_scopes(program@, arena@, env as nat, depth as nat);
    }
    match eval_block(&program.body, arena, env, depth) {
        Err(e) => Err(e),
        Ok(v) => Ok(unwrap_returns(v)),
    }
}

/// The outcome of a program in the root scope of the arena.
pub fn eval(program: &Program, arena: &mut Arena) -> (r: Result<Rc<Object>, EvalError>)
    ensures
        result_view(r) == semantics::eval_program(
            program@,
            old(arena)@,
            0,
            DEFAULT_CALL_DEPTH as nat,
        ).result,
        final(arena)@ == semantics::eval_program(
            program@,
            old(arena)@,
            0,
            DEFAULT_CALL_DEPTH as nat,
        ).heap,
        with_message(r),
        laws::sound(old(arena)@) && old(arena)@.len() > 0 ==> laws::sound(final(arena)@),
        links_inward(old(arena)@),
        links_inward(final(arena)@),
        laws::grown_from(final(arena)@, old(arena)@, 0),
{
    eval_in(program, arena, 0, DEFAULT_CALL_DEPTH)
}

} // verus!
