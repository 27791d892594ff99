//! Laws of evaluation, proved of the semantics that the evaluator computes.

use vstd::prelude::*;
use crate::evaluator::semantics::{
    bind_parameters,
    enter,
    eval_arguments,
    eval_expr,
    eval_program,
    eval_statements,
    eval_stmt,
    fault_message,
    prefix_op,
    same_kind,
    strip_returns,
    truncated_quotient,
    truthy,
    wrap64,
    Fault,
    Outcome,
};
use crate::object::{bind, describe, links_inward, resolve, Scope, Value};
use crate::parser::arithmetic::{is_arithmetic, law_standard_arithmetic, sum};
use crate::parser::grammar::{kind_at, parse_expression, ParseErrorView};
use crate::parser::node::{Expr, Stmt};
use crate::token::{kind_text, precedence_of, Punctuator, TokenKind, TokenView, LOWEST};

verus! {

/// The operator `!`.
pub open spec fn not_operator() -> TokenKind {
    TokenKind::Punctuator(Punctuator::Not)
}

/// Negation never fails, and negating a value twice gives the truth value
/// of whether the value counts as true.
pub proof fn law_double_negation(v: Value)
    ensures
        prefix_op(not_operator(), v) == Ok::<Value, Fault>(Value::Bool(!truthy(v))),
        prefix_op(not_operator(), Value::Bool(!truthy(v))) == Ok::<Value, Fault>(
            Value::Bool(truthy(v)),
        ),
        truthy(Value::Bool(truthy(v))) == truthy(v),
{
}

/// `!!e` evaluates where `e` does, leaves the scopes as `e` leaves them,
/// and yields a truth value that is true exactly where the value of `e`
/// counts as true; where `e` fails, `!!e` fails in the same way.
pub proof fn law_double_negation_of_expression(e: Expr, heap: Seq<Scope>, env: nat, depth: nat)
    ensures
        ({
            let once = Expr::Prefix { operator: not_operator(), right: Box::new(e) };
            let twice = Expr::Prefix { operator: not_operator(), right: Box::new(once) };
            let inner = eval_expr(e, heap, env, depth);
            let outer = eval_expr(twice, heap, env, depth);
            match inner.result {
                Ok(v) => outer == (Outcome {
                    result: Ok(Value::Bool(truthy(v))),
                    heap: inner.heap,
                }),
                Err(_) => outer == inner,
            }
        }),
{
    reveal_with_fuel(eval_expr, 3);
}

/// A conditional without an alternative whose condition does not count as
/// true yields null, and leaves the scopes as the condition left them.
pub proof fn law_if_without_alternative(
    condition: Expr,
    consequence: Seq<Stmt>,
    heap: Seq<Scope>,
    env: nat,
    depth: nat,
)
    requires
        eval_expr(condition, heap, env, depth).result matches Ok(v) && !truthy(v),
    ensures
        eval_expr(
            Expr::If { condition: Box::new(condition), consequence, alternative: None },
            heap,
            env,
            depth,
        ) == (Outcome {
            result: Ok(Value::Null),
            heap: eval_expr(condition, heap, env, depth).heap,
        }),
{
}

/// A conditional whose condition counts as true yields what its
/// consequence yields in the scopes that the condition left, whatever the
/// alternative.
pub proof fn law_if_true(
    condition: Expr,
    consequence: Seq<Stmt>,
    alternative: Option<Seq<Stmt>>,
    heap: Seq<Scope>,
    env: nat,
    depth: nat,
)
    requires
        eval_expr(condition, heap, env, depth).result matches Ok(v) && truthy(v),
    ensures
        eval_expr(
            Expr::If { condition: Box::new(condition), consequence, alternative },
            heap,
            env,
            depth,
        ) == eval_statements(
            consequence,
            0,
            Value::Null,
            eval_expr(condition, heap, env, depth).heap,
            env,
            depth,
        ),
{
}

/// A conditional whose condition does not count as true yields what its
/// alternative yields in the scopes that the condition left.
pub proof fn law_if_false(
    condition: Expr,
    consequence: Seq<Stmt>,
    alternative: Seq<Stmt>,
    heap: Seq<Scope>,
    env: nat,
    depth: nat,
)
    requires
        eval_expr(condition, heap, env, depth).result matches Ok(v) && !truthy(v),
    ensures
        eval_expr(
            Expr::If { condition: Box::new(condition), consequence, alternative: Some(alternative) },
            heap,
            env,
            depth,
        ) == eval_statements(
            alternative,
            0,
            Value::Null,
            eval_expr(condition, heap, env, depth).heap,
            env,
            depth,
        ),
{
}

/// A binary operator between operands of different kinds fails with a type
/// mismatch that names both operands and the operator, and its message
/// reads `type mismatch: `, the left operand, the operator and the right
/// operand, separated by blanks.
pub proof fn law_type_mismatch(
    operator: TokenKind,
    left: Expr,
    right: Expr,
    heap: Seq<Scope>,
    env: nat,
    depth: nat,
)
    requires
        eval_expr(left, heap, env, depth).result is Ok,
        eval_expr(right, eval_expr(left, heap, env, depth).heap, env, depth).result is Ok,
        !same_kind(
            eval_expr(left, heap, env, depth).result->Ok_0,
            eval_expr(right, eval_expr(left, heap, env, depth).heap, env, depth).result->Ok_0,
        ),
    ensures
        ({
            let l = eval_expr(left, heap, env, depth);
            let r = eval_expr(right, l.heap, env, depth);
            let fault = Fault::TypeMismatch {
                left: l.result->Ok_0,
                operator,
                right: r.result->Ok_0,
            };
            &&& eval_expr(
                Expr::Infix { operator, left: Box::new(left), right: Box::new(right) },
                heap,
                env,
                depth,
            ) == (Outcome { result: Err(fault), heap: r.heap })
            &&& fault_message(fault) == "type mismatch: "@ + describe(l.result->Ok_0) + " "@
                + kind_text(operator) + " "@ + describe(r.result->Ok_0)
        }),
{
}

/// A name that no scope from `env` outwards binds fails as not found, the
/// scopes stay as they were, and the message reads `identifier not found: `
/// and the name.
pub proof fn law_identifier_not_found(name: Seq<char>, heap: Seq<Scope>, env: nat, depth: nat)
    requires
        resolve(heap, env, name) is None,
    ensures
        eval_expr(Expr::Identifier(name), heap, env, depth) == (Outcome {
            result: Err(Fault::IdentifierNotFound { name }),
            heap,
        }),
        fault_message(Fault::IdentifierNotFound { name }) == "identifier not found: "@ + name,
{
}

/// A name that a scope from `env` outwards binds evaluates to what the
/// innermost such scope binds it to.
pub proof fn law_identifier_found(name: Seq<char>, heap: Seq<Scope>, env: nat, depth: nat)
    requires
        resolve(heap, env, name) is Some,
    ensures
        eval_expr(Expr::Identifier(name), heap, env, depth) == (Outcome {
            result: Ok(resolve(heap, env, name)->Some_0),
            heap,
        }),
{
}

/// What is left of a value without the wrappers of `return` is no such
/// wrapper.
pub proof fn law_strip_returns(v: Value)
    ensures
        !(strip_returns(v) is Return),
    decreases v,
{
    match v {
        Value::Return(inner) => {
            law_strip_returns(*inner);
        },
        _ => {},
    }
}

/// A `return` does not pass a call: whatever a call yields is no wrapped
/// value.
pub proof fn law_call_contains_return(
    function: Expr,
    arguments: Seq<Expr>,
    heap: Seq<Scope>,
    env: nat,
    depth: nat,
)
    ensures
        eval_expr(
            Expr::Call { function: Box::new(function), arguments },
            heap,
            env,
            depth,
        ).result matches Ok(v) ==> !(v is Return),
{
    let call = Expr::Call { function: Box::new(function), arguments };
    match eval_expr(call, heap, env, depth).result {
        Ok(v) => {
            assert forall|w: Value| !(#[trigger] strip_returns(w) is Return) by {
                law_strip_returns(w);
            }
        },
        Err(_) => {},
    }
}

/// Whatever a program yields is no wrapped value.
pub proof fn law_program_contains_return(program: Seq<Stmt>, heap: Seq<Scope>, env: nat, depth: nat)
    ensures
        eval_program(program, heap, env, depth).result matches Ok(v) ==> !(v is Return),
{
    assert forall|w: Value| !(#[trigger] strip_returns(w) is Return) by {
        law_strip_returns(w);
    }
}

/// What an evaluation in scope `env` may do to the scopes: add new ones
/// behind them, each enclosed by a scope that was made before it or by
/// none, and in scope `env` itself add bindings or replace them. Every
/// other scope stays as it was, and no scope changes the scope that
/// encloses it.
pub open spec fn grown_from(after: Seq<Scope>, before: Seq<Scope>, env: nat) -> bool {
    &&& before.len() <= after.len()
    &&& forall|i: int| 0 <= i < before.len() && i != env ==> #[trigger] after[i] == before[i]
    &&& env < before.len() ==> after[env as int].outer == before[env as int].outer
    &&& env < before.len() ==> forall|name: Seq<char>| #[trigger]
        before[env as int].store.contains_key(name) ==> after[env as int].store.contains_key(name)
    &&& forall|i: int|
        before.len() <= i < after.len() ==> match (#[trigger] after[i]).outer {
            Some(outer) => outer < i,
            None => true,
        }
}

/// Scopes that grew from scopes whose links point inward have links that
/// point inward.
pub proof fn law_links_stay_inward(after: Seq<Scope>, before: Seq<Scope>, env: nat)
    requires
        grown_from(after, before, env),
        links_inward(before),
    ensures
        links_inward(after),
{
    assert forall|i: int| 0 <= i < after.len() implies match (#[trigger] after[i]).outer {
        Some(outer) => outer < i,
        None => true,
    } by {
        if i < before.len() {
            assert(after[i].outer == before[i].outer);
        }
    }
}

/// Evaluating a program in scope `env` leaves every other scope that was
/// there as it was, and leaves the links pointing inward where they did.
pub proof fn law_program_keeps_other_scopes(
    program: Seq<Stmt>,
    heap: Seq<Scope>,
    env: nat,
    depth: nat,
)
    ensures
        grown_from(eval_program(program, heap, env, depth).heap, heap, env),
        links_inward(heap) ==> links_inward(eval_program(program, heap, env, depth).heap),
{
    law_statements_keep_other_scopes(program, 0, Value::Null, heap, env, depth);
    if links_inward(heap) {
        law_links_stay_inward(eval_program(program, heap, env, depth).heap, heap, env);
    }
}

/// Where the links point inward, a name is looked up along the chain: it
/// resolves to what the scope itself binds it to, and where the scope does
/// not bind it, to what it resolves to in the enclosing scope; it does not
/// resolve only where no scope of the chain binds it.
pub proof fn law_lookup_walks_outward(heap: Seq<Scope>, env: nat, name: Seq<char>)
    requires
        links_inward(heap),
        env < heap.len(),
    ensures
        resolve(heap, env, name) == if heap[env as int].store.contains_key(name) {
            Some(heap[env as int].store[name])
        } else {
            match heap[env as int].outer {
                Some(outer) => resolve(heap, outer, name),
                None => None,
            }
        },
{
    assert(match heap[env as int].outer {
        Some(outer) => outer < env,
        None => true,
    });
}

/// Scopes that grew in two steps have grown.
pub proof fn lemma_grown_twice(a: Seq<Scope>, b: Seq<Scope>, c: Seq<Scope>, env: nat)
    requires
        grown_from(b, a, env),
        grown_from(c, b, env),
    ensures
        grown_from(c, a, env),
{
    assert forall|i: int| 0 <= i < a.len() && i != env implies #[trigger] c[i] == a[i] by {
        assert(b[i] == a[i]);
        assert(c[i] == b[i]);
    }
}

/// Evaluating an expression in scope `env` leaves every other scope that
/// was there as it was: what a function binds while it runs does not reach
/// the scopes of its caller or of any other call.
#[verifier::rlimit(40)]
pub proof fn law_expression_keeps_other_scopes(e: Expr, heap: Seq<Scope>, env: nat, depth: nat)
    ensures
        grown_from(eval_expr(e, heap, env, depth).heap, heap, env),
    decreases depth, e, 0nat,
{
    match e {
        Expr::Prefix { operator, right } => {
            law_expression_keeps_other_scopes(*right, heap, env, depth);
        },
        Expr::Infix { operator, left, right } => {
            law_expression_keeps_other_scopes(*left, heap, env, depth);
            let l = eval_expr(*left, heap, env, depth);
            if l.result is Ok {
                law_expression_keeps_other_scopes(*right, l.heap, env, depth);
                lemma_grown_twice(heap, l.heap, eval_expr(*right, l.heap, env, depth).heap, env);
            }
        },
        Expr::If { condition, consequence, alternative } => {
            law_expression_keeps_other_scopes(*condition, heap, env, depth);
            let c = eval_expr(*condition, heap, env, depth);
            match c.result {
                Ok(v) => {
                    if truthy(v) {
                        law_statements_keep_other_scopes(
                            consequence,
                            0,
                            Value::Null,
                            c.heap,
                            env,
                            depth,
                        );
                        lemma_grown_twice(
                            heap,
                            c.heap,
                            eval_statements(consequence, 0, Value::Null, c.heap, env, depth).heap,
                            env,
                        );
                    } else {
                        match alternative {
                            Some(block) => {
                                law_statements_keep_other_scopes(
                                    block,
                                    0,
                                    Value::Null,
                                    c.heap,
                                    env,
                                    depth,
                                );
                                lemma_grown_twice(
                                    heap,
                                    c.heap,
                                    eval_statements(block, 0, Value::Null, c.heap, env, depth).heap,
                                    env,
                                );
                            },
                            None => {},
                        }
                    }
                },
                Err(_) => {},
            }
        },
        Expr::Call { function, arguments } => {
            law_expression_keeps_other_scopes(*function, heap, env, depth);
            let f = eval_expr(*function, heap, env, depth);
            match f.result {
                Ok(Value::Function { parameters, body, env: captured }) => {
                    lemma_arguments_keep_other_scopes(
                        arguments,
                        0,
                        Seq::empty(),
                        f.heap,
                        env,
                        depth,
                    );
                    let a = eval_arguments(arguments, 0, Seq::empty(), f.heap, env, depth);
                    lemma_grown_twice(heap, f.heap, a.heap, env);
                    match a.result {
                        Ok(values) => {
                            if values.len() == parameters.len() && depth > 0 {
                                let entered = enter(a.heap, parameters, values, captured);
                                let scope = a.heap.len();
                                law_statements_keep_other_scopes(
                                    body,
                                    0,
                                    Value::Null,
                                    entered,
                                    scope,
                                    (depth - 1) as nat,
                                );
                                let b = eval_statements(
                                    body,
                                    0,
                                    Value::Null,
                                    entered,
                                    scope,
                                    (depth - 1) as nat,
                                );
                                assert forall|i: int| 0 <= i < a.heap.len() implies #[trigger] b.heap[i]
                                    == a.heap[i] by {
                                    assert(b.heap[i] == entered[i]);
                                }
                                assert(grown_from(b.heap, a.heap, env));
                                lemma_grown_twice(heap, a.heap, b.heap, env);
                            }
                        },
                        Err(_) => {},
                    }
                },
                _ => {},
            }
        },
        _ => {},
    }
}

/// Evaluating arguments in scope `env` leaves every other scope that was
/// there as it was.
pub proof fn lemma_arguments_keep_other_scopes(
    arguments: Seq<Expr>,
    from: nat,
    acc: Seq<Value>,
    heap: Seq<Scope>,
    env: nat,
    depth: nat,
)
    ensures
        grown_from(eval_arguments(arguments, from, acc, heap, env, depth).heap, heap, env),
    decreases depth, arguments, arguments.len() - from,
{
    if from < arguments.len() {
        law_expression_keeps_other_scopes(arguments[from as int], heap, env, depth);
        let o = eval_expr(arguments[from as int], heap, env, depth);
        match o.result {
            Ok(v) => {
                lemma_arguments_keep_other_scopes(
                    arguments,
                    from + 1,
                    acc.push(v),
                    o.heap,
                    env,
                    depth,
                );
                lemma_grown_twice(
                    heap,
                    o.heap,
                    eval_arguments(arguments, from + 1, acc.push(v), o.heap, env, depth).heap,
                    env,
                );
            },
            Err(_) => {},
        }
    }
}

/// Evaluating a statement in scope `env` leaves every other scope that was
/// there as it was.
pub proof fn law_statement_keeps_other_scopes(s: Stmt, heap: Seq<Scope>, env: nat, depth: nat)
    ensures
        grown_from(eval_stmt(s, heap, env, depth).heap, heap, env),
    decreases depth, s, 0nat,
{
    match s {
        Stmt::Let { name, value } => {
            law_expression_keeps_other_scopes(value, heap, env, depth);
            let o = eval_expr(value, heap, env, depth);
            match o.result {
                Ok(v) => {
                    assert(grown_from(bind(o.heap, env, name, v), o.heap, env));
                    lemma_grown_twice(heap, o.heap, bind(o.heap, env, name, v), env);
                },
                Err(_) => {},
            }
        },
        Stmt::Return { argument } => {
            match argument {
                Some(value) => {
                    law_expression_keeps_other_scopes(value, heap, env, depth);
                },
                None => {},
            }
        },
        Stmt::Expression { expression } => {
            law_expression_keeps_other_scopes(expression, heap, env, depth);
        },
        Stmt::Block { statements } => {
            law_statements_keep_other_scopes(statements, 0, Value::Null, heap, env, depth);
        },
    }
}

/// Evaluating a run of statements in scope `env` leaves every other scope
/// that was there as it was.
pub proof fn law_statements_keep_other_scopes(
    statements: Seq<Stmt>,
    from: nat,
    last: Value,
    heap: Seq<Scope>,
    env: nat,
    depth: nat,
)
    ensures
        grown_from(eval_statements(statements, from, last, heap, env, depth).heap, heap, env),
    decreases depth, statements, statements.len() - from,
{
    if from < statements.len() {
        law_statement_keeps_other_scopes(statements[from as int], heap, env, depth);
        let o = eval_stmt(statements[from as int], heap, env, depth);
        match o.result {
            Ok(v) => {
                if !(v is Return) {
                    law_statements_keep_other_scopes(statements, from + 1, v, o.heap, env, depth);
                    lemma_grown_twice(
                        heap,
                        o.heap,
                        eval_statements(statements, from + 1, v, o.heap, env, depth).heap,
                        env,
                    );
                }
            },
            Err(_) => {},
        }
    }
}

/// A `let` whose value evaluates binds the name in its own scope: the name
/// resolves to the value right after it, the statement yields null, and the
/// other scopes stay as the value left them.
pub proof fn law_let_binds(name: Seq<char>, value: Expr, heap: Seq<Scope>, env: nat, depth: nat)
    requires
        env < heap.len(),
        eval_expr(value, heap, env, depth).result is Ok,
    ensures
        ({
            let v = eval_expr(value, heap, env, depth);
            let o = eval_stmt(Stmt::Let { name, value }, heap, env, depth);
            &&& o.result == Ok::<Value, Fault>(Value::Null)
            &&& o.heap == bind(v.heap, env, name, v.result->Ok_0)
            &&& resolve(o.heap, env, name) == Some(v.result->Ok_0)
            &&& grown_from(o.heap, v.heap, env)
        }),
{
    law_expression_keeps_other_scopes(value, heap, env, depth);
}

/// A scope sees what the scope that encloses it sees, for every name that
/// it does not bind itself.
pub proof fn law_enclosed_scope_sees_outer(
    heap: Seq<Scope>,
    inner: nat,
    outer: nat,
    name: Seq<char>,
)
    requires
        outer < inner < heap.len(),
        heap[inner as int].outer == Some(outer),
        !heap[inner as int].store.contains_key(name),
    ensures
        resolve(heap, inner, name) == resolve(heap, outer, name),
{
}

/// The scope in which a function body runs is enclosed by the scope in
/// which the function was made, and binds nothing but parameters.
pub proof fn law_call_scope(
    heap: Seq<Scope>,
    parameters: Seq<Seq<char>>,
    arguments: Seq<Value>,
    captured: nat,
    name: Seq<char>,
)
    requires
        captured < heap.len(),
        !parameters.contains(name),
    ensures
        resolve(enter(heap, parameters, arguments, captured), heap.len(), name) == resolve(
            heap,
            captured,
            name,
        ),
{
    let entered = enter(heap, parameters, arguments, captured);
    lemma_bound_parameters(parameters, arguments, parameters.len(), name);
    lemma_resolve_in_prefix(heap, entered, captured, name);
}

/// Parameters bind no name that is not among them.
pub proof fn lemma_bound_parameters(
    parameters: Seq<Seq<char>>,
    arguments: Seq<Value>,
    n: nat,
    name: Seq<char>,
)
    requires
        !parameters.contains(name),
    ensures
        !bind_parameters(parameters, arguments, n).contains_key(name),
    decreases n,
{
    if !(n == 0 || n > parameters.len() || n > arguments.len()) {
        lemma_bound_parameters(parameters, arguments, (n - 1) as nat, name);
        assert(parameters[n - 1] != name);
    }
}

/// A name resolves from a scope as it did before scopes were added behind
/// those that were there.
pub proof fn lemma_resolve_in_prefix(
    before: Seq<Scope>,
    after: Seq<Scope>,
    env: nat,
    name: Seq<char>,
)
    requires
        before.len() <= after.len(),
        env < before.len(),
        forall|i: int| 0 <= i < before.len() ==> #[trigger] after[i] == before[i],
    ensures
        resolve(after, env, name) == resolve(before, env, name),
    decreases env,
{
    assert(after[env as int] == before[env as int]);
    if !before[env as int].store.contains_key(name) {
        match before[env as int].outer {
            Some(outer) => {
                if outer < env {
                    lemma_resolve_in_prefix(before, after, outer, name);
                }
            },
            None => {},
        }
    }
}

/// Once a run of statements has stopped at a wrapped value or a fault,
/// nothing that follows is evaluated: the outcome is the same whatever
/// statements stand behind it.
pub proof fn law_return_stops_run(
    statements: Seq<Stmt>,
    rest: Seq<Stmt>,
    heap: Seq<Scope>,
    env: nat,
    depth: nat,
)
    requires
        ({
            let o = eval_statements(statements, 0, Value::Null, heap, env, depth);
            o.result is Err || o.result->Ok_0 is Return
        }),
    ensures
        eval_statements(statements + rest, 0, Value::Null, heap, env, depth) == eval_statements(
            statements,
            0,
            Value::Null,
            heap,
            env,
            depth,
        ),
{
    lemma_stopped_run(statements, rest, 0, Value::Null, heap, env, depth);
}

/// The same, from any statement of the run on.
pub proof fn lemma_stopped_run(
    statements: Seq<Stmt>,
    rest: Seq<Stmt>,
    from: nat,
    last: Value,
    heap: Seq<Scope>,
    env: nat,
    depth: nat,
)
    requires
        !(last is Return),
        ({
            let o = eval_statements(statements, from, last, heap, env, depth);
            o.result is Err || o.result->Ok_0 is Return
        }),
    ensures
        eval_statements(statements + rest, from, last, heap, env, depth) == eval_statements(
            statements,
            from,
            last,
            heap,
            env,
            depth,
        ),
    decreases statements.len() - from,
{
    if from < statements.len() {
        assert((statements + rest)[from as int] == statements[from as int]);
        let o = eval_stmt(statements[from as int], heap, env, depth);
        match o.result {
            Ok(v) => {
                if !(v is Return) {
                    lemma_stopped_run(statements, rest, from + 1, v, o.heap, env, depth);
                }
            },
            Err(_) => {},
        }
    }
}

/// A block passes on what its statements yield, a wrapped value included:
/// a `return` leaves every block that encloses it.
pub proof fn law_block_passes_return(statements: Seq<Stmt>, heap: Seq<Scope>, env: nat, depth: nat)
    ensures
        eval_stmt(Stmt::Block { statements }, heap, env, depth) == eval_statements(
            statements,
            0,
            Value::Null,
            heap,
            env,
            depth,
        ),
{
}

/// The number that an arithmetic expression denotes, computed from the
/// numbers of its operands along the grouping of the tree; `None` where a
/// division by zero comes first.
pub open spec fn arithmetic_value(e: Expr) -> Option<i64>
    decreases e,
{
    match e {
        Expr::Integer(value) => Some(value),
        Expr::Prefix { operator, right } => match arithmetic_value(*right) {
            Some(v) => Some(wrap64(-v)),
            None => None,
        },
        Expr::Infix { operator, left, right } => match arithmetic_value(*left) {
            None => None,
            Some(a) => match arithmetic_value(*right) {
                None => None,
                Some(b) => if operator == TokenKind::Punctuator(Punctuator::Add) {
                    Some(wrap64(a + b))
                } else if operator == TokenKind::Punctuator(Punctuator::Sub) {
                    Some(wrap64(a - b))
                } else if operator == TokenKind::Punctuator(Punctuator::Mul) {
                    Some(wrap64(a * b))
                } else if b == 0 {
                    None
                } else {
                    Some(wrap64(truncated_quotient(a as int, b as int)))
                },
            },
        },
        _ => None,
    }
}

/// An arithmetic expression evaluates to the number that it denotes, in
/// any scope and at any depth, and leaves the scopes as they were; it
/// fails only by a division by zero.
pub proof fn law_arithmetic(e: Expr, heap: Seq<Scope>, env: nat, depth: nat)
    requires
        is_arithmetic(e),
    ensures
        eval_expr(e, heap, env, depth) == (Outcome {
            result: match arithmetic_value(e) {
                Some(v) => Ok(Value::Int(v)),
                None => Err(Fault::DivisionByZero),
            },
            heap,
        }),
    decreases e,
{
    match e {
        Expr::Prefix { operator, right } => {
            law_arithmetic(*right, heap, env, depth);
        },
        Expr::Infix { operator, left, right } => {
            law_arithmetic(*left, heap, env, depth);
            law_arithmetic(*right, heap, env, depth);
        },
        _ => {},
    }
}

/// Whether every function in a value, under any wrappers of `return`, was
/// made in one of the first `n` scopes.
pub open spec fn value_fits(v: Value, n: nat) -> bool
    decreases v,
{
    match v {
        Value::Function { parameters, body, env } => env < n,
        Value::Return(inner) => value_fits(*inner, n),
        _ => true,
    }
}

/// Whether every value that a scope binds fits the first `n` scopes.
pub open spec fn scope_fits(scope: Scope, n: nat) -> bool {
    forall|name: Seq<char>| #[trigger]
        scope.store.contains_key(name) ==> value_fits(scope.store[name], n)
}

/// Whether the scopes hang together: every scope is enclosed by a scope
/// that was made before it, and every function that a scope binds was made
/// in a scope that is there. In such scopes every link is followed when a
/// name is resolved, and the scope that a function captured is the one that
/// its calls see.
pub open spec fn sound(heap: Seq<Scope>) -> bool {
    &&& links_inward(heap)
    &&& forall|i: int| 0 <= i < heap.len() ==> scope_fits(#[trigger] heap[i], heap.len())
}

/// A value that fits some scopes fits more of them.
pub proof fn lemma_fits_more(v: Value, n: nat, m: nat)
    requires
        value_fits(v, n),
        n <= m,
    ensures
        value_fits(v, m),
    decreases v,
{
    match v {
        Value::Return(inner) => {
            lemma_fits_more(*inner, n, m);
        },
        _ => {},
    }
}

/// What is left of a fitting value without the wrappers of `return` fits.
pub proof fn lemma_stripped_fits(v: Value, n: nat)
    requires
        value_fits(v, n),
    ensures
        value_fits(strip_returns(v), n),
    decreases v,
{
    match v {
        Value::Return(inner) => {
            lemma_stripped_fits(*inner, n);
        },
        _ => {},
    }
}

/// In sound scopes a name resolves to a value that fits them.
pub proof fn lemma_resolved_fits(heap: Seq<Scope>, env: nat, name: Seq<char>)
    requires
        sound(heap),
    ensures
        resolve(heap, env, name) matches Some(v) ==> value_fits(v, heap.len()),
    decreases env,
{
    if env < heap.len() {
        assert(scope_fits(heap[env as int], heap.len()));
        if !heap[env as int].store.contains_key(name) {
            match heap[env as int].outer {
                Some(outer) => {
                    if outer < env {
                        lemma_resolved_fits(heap, outer, name);
                    }
                },
                None => {},
            }
        }
    }
}

/// Parameters are bound to arguments: where the arguments fit, so does
/// every binding.
pub proof fn lemma_bound_parameters_fit(
    parameters: Seq<Seq<char>>,
    arguments: Seq<Value>,
    n: nat,
    limit: nat,
)
    requires
        forall|k: int| 0 <= k < arguments.len() ==> value_fits(#[trigger] arguments[k], limit),
    ensures
        forall|name: Seq<char>| #[trigger]
            bind_parameters(parameters, arguments, n).contains_key(name) ==> value_fits(
                bind_parameters(parameters, arguments, n)[name],
                limit,
            ),
    decreases n,
{
    if !(n == 0 || n > parameters.len() || n > arguments.len()) {
        lemma_bound_parameters_fit(parameters, arguments, (n - 1) as nat, limit);
        let fewer = bind_parameters(parameters, arguments, (n - 1) as nat);
        let all = bind_parameters(parameters, arguments, n);
        assert(all == fewer.insert(parameters[n - 1], arguments[n - 1]));
        assert forall|name: Seq<char>| #[trigger] all.contains_key(name) implies value_fits(
            all[name],
            limit,
        ) by {
            if name == parameters[n - 1] {
                assert(value_fits(arguments[n - 1], limit));
            } else {
                assert(fewer.contains_key(name));
            }
        }
    } else {
        assert(bind_parameters(parameters, arguments, n) == Map::<Seq<char>, Value>::empty());
    }
}

/// Sound scopes stay sound when a scope is added that binds fitting values
/// and is enclosed by a scope that is there.
pub proof fn lemma_sound_after_push(heap: Seq<Scope>, scope: Scope)
    requires
        sound(heap),
        scope.outer matches Some(outer) && outer < heap.len(),
        scope_fits(scope, heap.len()),
    ensures
        sound(heap.push(scope)),
{
    let after = heap.push(scope);
    assert forall|i: int| 0 <= i < after.len() implies scope_fits(
        #[trigger] after[i],
        after.len(),
    ) by {
        let s = after[i];
        if i < heap.len() {
            assert(scope_fits(heap[i], heap.len()));
        }
        assert forall|name: Seq<char>| #[trigger] s.store.contains_key(name) implies value_fits(
            s.store[name],
            after.len(),
        ) by {
            lemma_fits_more(s.store[name], heap.len(), after.len());
        }
    }
}

/// Sound scopes stay sound when a fitting value is bound in one of them.
pub proof fn lemma_sound_after_bind(heap: Seq<Scope>, env: nat, name: Seq<char>, v: Value)
    requires
        sound(heap),
        value_fits(v, heap.len()),
    ensures
        sound(bind(heap, env, name, v)),
{
    let after = bind(heap, env, name, v);
    if env < heap.len() {
        assert forall|i: int| 0 <= i < after.len() implies scope_fits(
            #[trigger] after[i],
            after.len(),
        ) by {
            assert(scope_fits(heap[i], heap.len()));
        }
        assert forall|i: int| 0 <= i < after.len() implies match (#[trigger] after[i]).outer {
            Some(outer) => outer < i,
            None => true,
        } by {
            assert(after[i].outer == heap[i].outer);
        }
    }
}

/// Evaluation keeps the scopes sound. From sound scopes, an expression
/// evaluated in a scope that is there leaves sound scopes, and its value
/// fits them: no function is ever cut off from the scope that it captured.
#[verifier::rlimit(40)]
pub proof fn law_expression_keeps_sound(e: Expr, heap: Seq<Scope>, env: nat, depth: nat)
    requires
        sound(heap),
        env < heap.len(),
    ensures
        sound(eval_expr(e, heap, env, depth).heap),
        eval_expr(e, heap, env, depth).result matches Ok(v) ==> value_fits(
            v,
            eval_expr(e, heap, env, depth).heap.len(),
        ),
    decreases depth, e, 0nat,
{
    match e {
        Expr::Identifier(name) => {
            lemma_resolved_fits(heap, env, name);
        },
        Expr::Prefix { operator, right } => {
            law_expression_keeps_sound(*right, heap, env, depth);
        },
        Expr::Infix { operator, left, right } => {
            law_expression_keeps_sound(*left, heap, env, depth);
            law_expression_keeps_other_scopes(*left, heap, env, depth);
            let l = eval_expr(*left, heap, env, depth);
            if l.result is Ok {
                law_expression_keeps_sound(*right, l.heap, env, depth);
            }
        },
        Expr::If { condition, consequence, alternative } => {
            law_expression_keeps_sound(*condition, heap, env, depth);
            law_expression_keeps_other_scopes(*condition, heap, env, depth);
            let c = eval_expr(*condition, heap, env, depth);
            match c.result {
                Ok(v) => {
                    if truthy(v) {
                        law_statements_keep_sound(consequence, 0, Value::Null, c.heap, env, depth);
                    } else {
                        match alternative {
                            Some(block) => {
                                law_statements_keep_sound(
                                    block,
                                    0,
                                    Value::Null,
                                    c.heap,
                                    env,
                                    depth,
                                );
                            },
                            None => {},
                        }
                    }
                },
                Err(_) => {},
            }
        },
        Expr::Call { function, arguments } => {
            law_expression_keeps_sound(*function, heap, env, depth);
            law_expression_keeps_other_scopes(*function, heap, env, depth);
            let f = eval_expr(*function, heap, env, depth);
            match f.result {
                Ok(Value::Function { parameters, body, env: captured }) => {
                    lemma_arguments_keep_sound(arguments, 0, Seq::empty(), f.heap, env, depth);
                    lemma_arguments_keep_other_scopes(
                        arguments,
                        0,
                        Seq::empty(),
                        f.heap,
                        env,
                        depth,
                    );
                    let a = eval_arguments(arguments, 0, Seq::empty(), f.heap, env, depth);
                    match a.result {
                        Ok(values) => {
                            if values.len() == parameters.len() && depth > 0 {
                                let scope = Scope {
                                    store: bind_parameters(parameters, values, parameters.len()),
                                    outer: Some(captured),
                                };
                                lemma_bound_parameters_fit(
                                    parameters,
                                    values,
                                    parameters.len(),
                                    a.heap.len(),
                                );
                                lemma_sound_after_push(a.heap, scope);
                                let entered = enter(a.heap, parameters, values, captured);
                                law_statements_keep_sound(
                                    body,
                                    0,
                                    Value::Null,
                                    entered,
                                    a.heap.len(),
                                    (depth - 1) as nat,
                                );
                                let b = eval_statements(
                                    body,
                                    0,
                                    Value::Null,
                                    entered,
                                    a.heap.len(),
                                    (depth - 1) as nat,
                                );
                                match b.result {
                                    Ok(v) => {
                                        lemma_stripped_fits(v, b.heap.len());
                                    },
                                    Err(_) => {},
                                }
                            }
                        },
                        Err(_) => {},
                    }
                },
                _ => {},
            }
        },
        _ => {},
    }
}

/// Evaluating arguments keeps the scopes sound, and the values fit them.
pub proof fn lemma_arguments_keep_sound(
    arguments: Seq<Expr>,
    from: nat,
    acc: Seq<Value>,
    heap: Seq<Scope>,
    env: nat,
    depth: nat,
)
    requires
        sound(heap),
        env < heap.len(),
        forall|k: int| 0 <= k < acc.len() ==> value_fits(#[trigger] acc[k], heap.len()),
    ensures
        sound(eval_arguments(arguments, from, acc, heap, env, depth).heap),
        eval_arguments(arguments, from, acc, heap, env, depth).result matches Ok(values)
            ==> forall|k: int|
            0 <= k < values.len() ==> value_fits(
                #[trigger] values[k],
                eval_arguments(arguments, from, acc, heap, env, depth).heap.len(),
            ),
    decreases depth, arguments, arguments.len() - from,
{
    if from < arguments.len() {
        law_expression_keeps_sound(arguments[from as int], heap, env, depth);
        law_expression_keeps_other_scopes(arguments[from as int], heap, env, depth);
        let o = eval_expr(arguments[from as int], heap, env, depth);
        match o.result {
            Ok(v) => {
                let more = acc.push(v);
                assert forall|k: int| 0 <= k < more.len() implies value_fits(
                    #[trigger] more[k],
                    o.heap.len(),
                ) by {
                    if k < acc.len() {
                        lemma_fits_more(acc[k], heap.len(), o.heap.len());
                    }
                }
                lemma_arguments_keep_sound(arguments, from + 1, more, o.heap, env, depth);
            },
            Err(_) => {},
        }
    }
}

/// Evaluating a statement keeps the scopes sound, and its value fits them.
pub proof fn law_statement_keeps_sound(s: Stmt, heap: Seq<Scope>, env: nat, depth: nat)
    requires
        sound(heap),
        env < heap.len(),
    ensures
        sound(eval_stmt(s, heap, env, depth).heap),
        eval_stmt(s, heap, env, depth).result matches Ok(v) ==> value_fits(
            v,
            eval_stmt(s, heap, env, depth).heap.len(),
        ),
    decreases depth, s, 0nat,
{
    match s {
        Stmt::Let { name, value } => {
            law_expression_keeps_sound(value, heap, env, depth);
            let o = eval_expr(value, heap, env, depth);
            match o.result {
                Ok(v) => {
                    lemma_sound_after_bind(o.heap, env, name, v);
                },
                Err(_) => {},
            }
        },
        Stmt::Return { argument } => {
            match argument {
                Some(value) => {
                    law_expression_keeps_sound(value, heap, env, depth);
                },
                None => {},
            }
        },
        Stmt::Expression { expression } => {
            law_expression_keeps_sound(expression, heap, env, depth);
        },
        Stmt::Block { statements } => {
            law_statements_keep_sound(statements, 0, Value::Null, heap, env, depth);
        },
    }
}

/// Evaluating a run of statements keeps the scopes sound, and its value
/// fits them.
pub proof fn law_statements_keep_sound(
    statements: Seq<Stmt>,
    from: nat,
    last: Value,
    heap: Seq<Scope>,
    env: nat,
    depth: nat,
)
    requires
        sound(heap),
        env < heap.len(),
        value_fits(last, heap.len()),
    ensures
        sound(eval_statements(statements, from, last, heap, env, depth).heap),
        eval_statements(statements, from, last, heap, env, depth).result matches Ok(v)
            ==> value_fits(v, eval_statements(statements, from, last, heap, env, depth).heap.len()),
    decreases depth, statements, statements.len() - from,
{
    if from < statements.len() {
        law_statement_keeps_sound(statements[from as int], heap, env, depth);
        law_statement_keeps_other_scopes(statements[from as int], heap, env, depth);
        let o = eval_stmt(statements[from as int], heap, env, depth);
        match o.result {
            Ok(v) => {
                if !(v is Return) {
                    law_statements_keep_sound(statements, from + 1, v, o.heap, env, depth);
                }
            },
            Err(_) => {},
        }
    }
}

/// A program evaluated in sound scopes leaves sound scopes, and its value
/// fits them. The scopes of a new arena are sound.
pub proof fn law_program_keeps_sound(program: Seq<Stmt>, heap: Seq<Scope>, env: nat, depth: nat)
    requires
        sound(heap),
        env < heap.len(),
    ensures
        sound(eval_program(program, heap, env, depth).heap),
        eval_program(program, heap, env, depth).result matches Ok(v) ==> value_fits(
            v,
            eval_program(program, heap, env, depth).heap.len(),
        ),
        sound(seq![Scope::root()]),
{
    law_statements_keep_sound(program, 0, Value::Null, heap, env, depth);
    match eval_statements(program, 0, Value::Null, heap, env, depth).result {
        Ok(v) => {
            lemma_stripped_fits(
                v,
                eval_statements(program, 0, Value::Null, heap, env, depth).heap.len(),
            );
        },
        Err(_) => {},
    }
}

/// In sound scopes the body of a call sees, for every name that is no
/// parameter, what the scope that the function captured sees.
pub proof fn law_closure_sees_captured_scope(
    heap: Seq<Scope>,
    parameters: Seq<Seq<char>>,
    body: Seq<Stmt>,
    captured: nat,
    arguments: Seq<Value>,
    name: Seq<char>,
)
    requires
        sound(heap),
        value_fits(Value::Function { parameters, body, env: captured }, heap.len()),
        !parameters.contains(name),
    ensures
        resolve(enter(heap, parameters, arguments, captured), heap.len(), name) == resolve(
            heap,
            captured,
            name,
        ),
{
    law_call_scope(heap, parameters, arguments, captured, name);
}

/// Whether an evaluation ran out of nested calls.
pub open spec fn out_of_depth<T>(result: Result<T, Fault>) -> bool {
    result matches Err(fault) && fault is CallDepthExceeded
}

/// The budget of nested calls decides nothing but whether it suffices: an
/// expression that evaluates without running out of nested calls has the
/// same outcome with every larger budget.
#[verifier::rlimit(40)]
pub proof fn law_depth_suffices(e: Expr, heap: Seq<Scope>, env: nat, depth: nat, more: nat)
    requires
        depth <= more,
        !out_of_depth(eval_expr(e, heap, env, depth).result),
    ensures
        eval_expr(e, heap, env, more) == eval_expr(e, heap, env, depth),
    decreases depth, e, 0nat,
{
    match e {
        Expr::Prefix { operator, right } => {
            law_depth_suffices(*right, heap, env, depth, more);
        },
        Expr::Infix { operator, left, right } => {
            law_depth_suffices(*left, heap, env, depth, more);
            let l = eval_expr(*left, heap, env, depth);
            if l.result is Ok {
                law_depth_suffices(*right, l.heap, env, depth, more);
            }
        },
        Expr::If { condition, consequence, alternative } => {
            law_depth_suffices(*condition, heap, env, depth, more);
            let c = eval_expr(*condition, heap, env, depth);
            match c.result {
                Ok(v) => {
                    if truthy(v) {
                        lemma_depth_suffices_for_statements(
                            consequence,
                            0,
                            Value::Null,
                            c.heap,
                            env,
                            depth,
                            more,
                        );
                    } else {
                        match alternative {
                            Some(block) => {
                                lemma_depth_suffices_for_statements(
                                    block,
                                    0,
                                    Value::Null,
                                    c.heap,
                                    env,
                                    depth,
                                    more,
                                );
                            },
                            None => {},
                        }
                    }
                },
                Err(_) => {},
            }
        },
        Expr::Call { function, arguments } => {
            law_depth_suffices(*function, heap, env, depth, more);
            let f = eval_expr(*function, heap, env, depth);
            match f.result {
                Ok(Value::Function { parameters, body, env: captured }) => {
                    lemma_depth_suffices_for_arguments(
                        arguments,
                        0,
                        Seq::empty(),
                        f.heap,
                        env,
                        depth,
                        more,
                    );
                    let a = eval_arguments(arguments, 0, Seq::empty(), f.heap, env, depth);
                    match a.result {
                        Ok(values) => {
                            if values.len() == parameters.len() {
                                lemma_depth_suffices_for_statements(
                                    body,
                                    0,
                                    Value::Null,
                                    enter(a.heap, parameters, values, captured),
                                    a.heap.len(),
                                    (depth - 1) as nat,
                                    (more - 1) as nat,
                                );
                            }
                        },
                        Err(_) => {},
                    }
                },
                _ => {},
            }
        },
        _ => {},
    }
}

/// The same, for the arguments of a call.
pub proof fn lemma_depth_suffices_for_arguments(
    arguments: Seq<Expr>,
    from: nat,
    acc: Seq<Value>,
    heap: Seq<Scope>,
    env: nat,
    depth: nat,
    more: nat,
)
    requires
        depth <= more,
        !out_of_depth(eval_arguments(arguments, from, acc, heap, env, depth).result),
    ensures
        eval_arguments(arguments, from, acc, heap, env, more) == eval_arguments(
            arguments,
            from,
            acc,
            heap,
            env,
            depth,
        ),
    decreases depth, arguments, arguments.len() - from,
{
    if from < arguments.len() {
        law_depth_suffices(arguments[from as int], heap, env, depth, more);
        let o = eval_expr(arguments[from as int], heap, env, depth);
        match o.result {
            Ok(v) => {
                lemma_depth_suffices_for_arguments(
                    arguments,
                    from + 1,
                    acc.push(v),
                    o.heap,
                    env,
                    depth,
                    more,
                );
            },
            Err(_) => {},
        }
    }
}

/// The same, for a statement.
pub proof fn lemma_depth_suffices_for_statement(
    s: Stmt,
    heap: Seq<Scope>,
    env: nat,
    depth: nat,
    more: nat,
)
    requires
        depth <= more,
        !out_of_depth(eval_stmt(s, heap, env, depth).result),
    ensures
        eval_stmt(s, heap, env, more) == eval_stmt(s, heap, env, depth),
    decreases depth, s, 0nat,
{
    match s {
        Stmt::Let { name, value } => {
            law_depth_suffices(value, heap, env, depth, more);
        },
        Stmt::Return { argument } => {
            match argument {
                Some(value) => {
                    law_depth_suffices(value, heap, env, depth, more);
                },
                None => {},
            }
        },
        Stmt::Expression { expression } => {
            law_depth_suffices(expression, heap, env, depth, more);
        },
        Stmt::Block { statements } => {
            lemma_depth_suffices_for_statements(
                statements,
                0,
                Value::Null,
                heap,
                env,
                depth,
                more,
            );
        },
    }
}

/// The same, for a run of statements.
pub proof fn lemma_depth_suffices_for_statements(
    statements: Seq<Stmt>,
    from: nat,
    last: Value,
    heap: Seq<Scope>,
    env: nat,
    depth: nat,
    more: nat,
)
    requires
        depth <= more,
        !out_of_depth(eval_statements(statements, from, last, heap, env, depth).result),
    ensures
        eval_statements(statements, from, last, heap, env, more) == eval_statements(
            statements,
            from,
            last,
            heap,
            env,
            depth,
        ),
    decreases depth, statements, statements.len() - from,
{
    if from < statements.len() {
        lemma_depth_suffices_for_statement(statements[from as int], heap, env, depth, more);
        let o = eval_stmt(statements[from as int], heap, env, depth);
        match o.result {
            Ok(v) => {
                if !(v is Return) {
                    lemma_depth_suffices_for_statements(
                        statements,
                        from + 1,
                        v,
                        o.heap,
                        env,
                        depth,
                        more,
                    );
                }
            },
            Err(_) => {},
        }
    }
}

/// The same, for a program.
pub proof fn law_depth_suffices_for_program(
    program: Seq<Stmt>,
    heap: Seq<Scope>,
    env: nat,
    depth: nat,
    more: nat,
)
    requires
        depth <= more,
        !out_of_depth(eval_program(program, heap, env, depth).result),
    ensures
        eval_program(program, heap, env, more) == eval_program(program, heap, env, depth),
{
    lemma_depth_suffices_for_statements(program, 0, Value::Null, heap, env, depth, more);
}

/// Arithmetic is evaluated as it is commonly read. Where the tokens from
/// `pos` on are a sum of the grammar of arithmetic, and the token behind
/// the sum binds nothing, the parser yields a tree whose value is the
/// number that the sum denotes with products before sums, operators of one
/// level from left to right, and parentheses before all.
pub proof fn law_arithmetic_source(
    ts: Seq<TokenView>,
    pos: nat,
    heap: Seq<Scope>,
    env: nat,
    depth: nat,
)
    requires
        sum(ts, pos) is Some,
        precedence_of(kind_at(ts, sum(ts, pos)->Some_0.1)) == LOWEST,
    ensures
        parse_expression(ts, pos, LOWEST) == Ok::<(Expr, nat), ParseErrorView>(
            sum(ts, pos)->Some_0,
        ),
        eval_expr(sum(ts, pos)->Some_0.0, heap, env, depth) == (Outcome {
            result: match arithmetic_value(sum(ts, pos)->Some_0.0) {
                Some(v) => Ok(Value::Int(v)),
                None => Err(Fault::DivisionByZero),
            },
            heap,
        }),
{
    law_standard_arithmetic(ts, pos);
    law_arithmetic(sum(ts, pos)->Some_0.0, heap, env, depth);
}

} // verus!
