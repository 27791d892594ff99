//! Source text of a syntax tree.
//!
//! Operators are written with their operands in parentheses, so that the
//! text shows the grouping of the tree. A statement is written without a
//! semicolon of its own: an expression statement is the expression, a `let`
//! is `let name = value`, a `return` is `return value` or `return`.
//! Statements that follow each other are separated by a semicolon and a
//! blank. A block stands between `{ ` and ` }`, so that the block of one
//! expression `x` reads `{ x }` and the empty block reads `{  }`.

use vstd::prelude::*;
use crate::parser::node::{
    lemma_expressions_view,
    lemma_statements_view,
    expressions_view,
    names_view,
    statements_view,
    CallExpression,
    Expr,
    Expression,
    FunctionLiteral,
    IfExpression,
    InfixExpression,
    PrefixExpression,
    Statement,
    Stmt,
};
use crate::text::{decimal, push_decimal};
use crate::token::kind_text;

verus! {

/// The first `n` names of a list, separated by a comma and a blank.
pub open spec fn render_names(names: Seq<Seq<char>>, n: nat) -> Seq<char>
    decreases n,
{
    if n == 0 || n > names.len() {
        Seq::empty()
    } else if n == 1 {
        names[0]
    } else {
        render_names(names, (n - 1) as nat) + ", "@ + names[n - 1]
    }
}

/// The text of a truth value.
pub open spec fn render_bool(b: bool) -> Seq<char> {
    if b {
        "true"@
    } else {
        "false"@
    }
}

/// The source text of an expression.
pub open spec fn render_expr(e: Expr) -> Seq<char>
    decreases e,
{
    match e {
        Expr::Identifier(name) => name,
        Expr::Integer(value) => decimal(value as int),
        Expr::Boolean(value) => render_bool(value),
        Expr::Str(text) => "\""@ + text + "\""@,
        Expr::Prefix { operator, right } => "("@ + kind_text(operator) + render_expr(*right)
            + ")"@,
        Expr::Infix { operator, left, right } => "("@ + render_expr(*left) + " "@ + kind_text(
            operator,
        ) + " "@ + render_expr(*right) + ")"@,
        Expr::If { condition, consequence, alternative } => {
            let head = "if ("@ + render_expr(*condition) + ") { "@ + render_stmts(
                consequence,
                consequence.len(),
            ) + " }"@;
            match alternative {
                Some(block) => head + " else { "@ + render_stmts(block, block.len()) + " }"@,
                None => head,
            }
        },
        Expr::Function { parameters, body } => "fn("@ + render_names(
            parameters,
            parameters.len(),
        ) + ") { "@ + render_stmts(body, body.len()) + " }"@,
        Expr::Call { function, arguments } => render_expr(*function) + "("@ + render_args(
            arguments,
            arguments.len(),
        ) + ")"@,
    }
}

/// The source text of the first `n` expressions of a list, separated by a
/// comma and a blank.
pub open spec fn render_args(args: Seq<Expr>, n: nat) -> Seq<char>
    decreases args, n,
{
    if n == 0 || n > args.len() {
        Seq::empty()
    } else if n == 1 {
        render_expr(args[0])
    } else {
        render_args(args, (n - 1) as nat) + ", "@ + render_expr(args[n - 1])
    }
}

/// The source text of a statement, without a semicolon.
pub open spec fn render_stmt(s: Stmt) -> Seq<char>
    decreases s,
{
    match s {
        Stmt::Let { name, value } => "let "@ + name + " = "@ + render_expr(value),
        Stmt::Return { argument } => match argument {
            Some(value) => "return "@ + render_expr(value),
            None => "return"@,
        },
        Stmt::Expression { expression } => render_expr(expression),
        Stmt::Block { statements } => "{ "@ + render_stmts(statements, statements.len()) + " }"@,
    }
}

/// The source text of the first `n` statements of a list, separated by a
/// semicolon and a blank.
pub open spec fn render_stmts(stmts: Seq<Stmt>, n: nat) -> Seq<char>
    decreases stmts, n,
{
    if n == 0 || n > stmts.len() {
        Seq::empty()
    } else if n == 1 {
        render_stmt(stmts[0])
    } else {
        render_stmts(stmts, (n - 1) as nat) + "; "@ + render_stmt(stmts[n - 1])
    }
}

/// Appends the names of a list, separated by a comma and a blank.
pub fn write_names(out: &mut String, names: &Vec<String>)
    ensures
        final(out)@ == old(out)@ + render_names(names_view(names@), names@.len()),
{
    let ghost views = names_view(names@);
    let mut i: usize = 0;
    assert(out@ =~= old(out)@ + render_names(views, 0));
    while i < names.len()
        invariant
            i <= names.len(),
            views == names_view(names@),
            out@ == old(out)@ + render_names(views, i as nat),
        decreases names.len() - i,
    {
        let ghost before = out@;
        if i > 0 {
            out.append(", ");
        }
        out.append(names[i].as_str());
        i = i + 1;
        assert(out@ =~= old(out)@ + render_names(views, i as nat));
    }
}

/// Appends the source text of an expression.
pub fn write_expression(out: &mut String, e: &Expression)
    ensures
        final(out)@ == old(out)@ + render_expr(e@),
    decreases e,
{
    match e {
        Expression::Identifier(name) => {
            out.append(name.as_str());
        },
        Expression::Integer(value) => {
            push_decimal(out, *value);
        },
        Expression::Boolean(value) => {
            if *value {
                out.append("true");
            } else {
                out.append("false");
            }
        },
        Expression::String(text) => {
            out.append("\"");
            out.append(text.as_str());
            out.append("\"");
            assert(out@ =~= old(out)@ + render_expr(e@));
        },
        Expression::Prefix(p) => {
            write_prefix(out, p);
        },
        Expression::Infix(x) => {
            write_infix(out, x);
        },
        Expression::If(c) => {
            write_if(out, c);
        },
        Expression::Function(f) => {
            write_function(out, f);
        },
        Expression::Call(c) => {
            write_call(out, c);
        },
    }
}

/// Appends the source text of a unary operator and its operand.
pub fn write_prefix(out: &mut String, p: &PrefixExpression)
    ensures
        final(out)@ == old(out)@ + render_expr(p@),
    decreases p,
{
    out.append("(");
    out.append(p.operator.text());
    write_expression(out, &p.right);
    out.append(")");
    assert(out@ =~= old(out)@ + render_expr(p@));
}

/// Appends the source text of a binary operator and its operands.
#[verifier::rlimit(40)]
pub fn write_infix(out: &mut String, x: &InfixExpression)
    ensures
        final(out)@ == old(out)@ + render_expr(x@),
    decreases x,
{
    out.append("(");
    write_expression(out, &x.left);
    out.append(" ");
    out.append(x.operator.text());
    out.append(" ");
    write_expression(out, &x.right);
    out.append(")");
    assert(out@ =~= old(out)@ + render_expr(x@));
}

/// Appends the source text of a conditional.
#[verifier::rlimit(40)]
pub fn write_if(out: &mut String, c: &IfExpression)
    ensures
        final(out)@ == old(out)@ + render_expr(c@),
    decreases c,
{
    proof {
        lemma_statements_view(c.consequence.statements);
    }
    out.append("if (");
    write_expression(out, &c.condition);
    out.append(") { ");
    write_statements(out, &c.consequence.statements);
    out.append(" }");
    let ghost head = out@;
    assert(head =~= old(out)@ + ("if ("@ + render_expr(c.condition@) + ") { "@ + render_stmts(
        c.consequence@,
        c.consequence@.len(),
    ) + " }"@));
    match &c.alternative {
        Some(block) => {
            proof {
                lemma_statements_view(block.statements);
            }
            out.append(" else { ");
            write_statements(out, &block.statements);
            out.append(" }");
            assert(out@ =~= old(out)@ + render_expr(c@));
        },
        None => {},
    }
}

/// Appends the source text of a function literal.
pub fn write_function(out: &mut String, f: &FunctionLiteral)
    ensures
        final(out)@ == old(out)@ + render_expr(f@),
    decreases f,
{
    proof {
        lemma_statements_view(f.body.statements);
    }
    out.append("fn(");
    write_names(out, &f.parameters);
    out.append(") { ");
    write_statements(out, &f.body.statements);
    out.append(" }");
    assert(names_view(f.parameters@).len() == f.parameters@.len());
    assert(out@ =~= old(out)@ + render_expr(f@));
}

/// Appends the source text of a call.
pub fn write_call(out: &mut String, c: &CallExpression)
    ensures
        final(out)@ == old(out)@ + render_expr(c@),
    decreases c,
{
    proof {
        lemma_expressions_view(c.arguments);
    }
    write_expression(out, &c.function);
    out.append("(");
    write_arguments(out, &c.arguments);
    out.append(")");
    assert(out@ =~= old(out)@ + render_expr(c@));
}

/// Appends the source text of a list of expressions, separated by a comma
/// and a blank.
#[verifier::loop_isolation(false)]
pub fn write_arguments(out: &mut String, list: &Vec<Expression>)
    ensures
        final(out)@ == old(out)@ + render_args(expressions_view(*list), list@.len()),
    decreases list,
{
    let ghost views = expressions_view(*list);
    proof {
        lemma_expressions_view(*list);
    }
    let mut i: usize = 0;
    assert(out@ =~= old(out)@ + render_args(views, 0));
    while i < list.len()
        invariant
            i <= list.len(),
            out@ == old(out)@ + render_args(views, i as nat),
        decreases list.len() - i,
    {
        proof {
            assert(decreases_to!(list => list[i as int]));
        }
        if i > 0 {
            out.append(", ");
        }
        write_expression(out, &list[i]);
        i = i + 1;
        assert(out@ =~= old(out)@ + render_args(views, i as nat));
    }
}

/// Appends the source text of a statement, without a semicolon.
#[verifier::rlimit(40)]
pub fn write_statement(out: &mut String, s: &Statement)
    ensures
        final(out)@ == old(out)@ + render_stmt(s@),
    decreases s,
{
    match s {
        Statement::Let(l) => {
            out.append("let ");
            out.append(l.name.as_str());
            out.append(" = ");
            write_expression(out, &l.value);
            assert(out@ =~= old(out)@ + render_stmt(s@));
        },
        Statement::Return(r) => {
            match &r.value {
                Some(value) => {
                    out.append("return ");
                    write_expression(out, value);
                    assert(out@ =~= old(out)@ + render_stmt(s@));
                },
                None => {
                    out.append("return");
                },
            }
        },
        Statement::Expression(x) => {
            write_expression(out, &x.expression);
        },
        Statement::Block(b) => {
            proof {
                lemma_statements_view(b.statements);
            }
            out.append("{ ");
            write_statements(out, &b.statements);
            out.append(" }");
            assert(out@ =~= old(out)@ + render_stmt(s@));
        },
    }
}

/// Appends the source text of a list of statements, separated by a
/// semicolon and a blank.
#[verifier::loop_isolation(false)]
pub fn write_statements(out: &mut String, list: &Vec<Statement>)
    ensures
        final(out)@ == old(out)@ + render_stmts(statements_view(*list), list@.len()),
    decreases list,
{
    let ghost views = statements_view(*list);
    proof {
        lemma_statements_view(*list);
    }
    let mut i: usize = 0;
    assert(out@ =~= old(out)@ + render_stmts(views, 0));
    while i < list.len()
        invariant
            i <= list.len(),
            out@ == old(out)@ + render_stmts(views, i as nat),
        decreases list.len() - i,
    {
        proof {
            assert(decreases_to!(list => list[i as int]));
        }
        if i > 0 {
            out.append("; ");
        }
        write_statement(out, &list[i]);
        i = i + 1;
        assert(out@ =~= old(out)@ + render_stmts(views, i as nat));
    }
}

} // verus!
