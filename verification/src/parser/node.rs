//! The syntax tree, and the mathematical trees that the contracts speak of.

use vstd::prelude::*;
use crate::token::TokenKind;

verus! {

/// A name as it stands in a parameter list.
pub type IdentifierExpression = String;

/// An expression of the language.
#[derive(Debug, PartialEq, Eq, Hash)]
pub enum Expression {
    Identifier(String),
    Integer(i64),
    Boolean(bool),
    String(String),
    Prefix(Box<PrefixExpression>),
    Infix(Box<InfixExpression>),
    If(Box<IfExpression>),
    Function(Box<FunctionLiteral>),
    Call(Box<CallExpression>),
}

/// A unary operator applied to an operand.
#[derive(Debug, PartialEq, Eq, Hash)]
pub struct PrefixExpression {
    pub operator: TokenKind,
    pub right: Expression,
}

/// A binary operator between two operands.
#[derive(Debug, PartialEq, Eq, Hash)]
pub struct InfixExpression {
    pub left: Expression,
    pub operator: TokenKind,
    pub right: Expression,
}

/// A conditional with an optional alternative.
#[derive(Debug, PartialEq, Eq, Hash)]
pub struct IfExpression {
    pub condition: Expression,
    pub consequence: BlockStatement,
    pub alternative: Option<BlockStatement>,
}

/// A function literal: parameter names and a body.
#[derive(Debug, PartialEq, Eq, Hash)]
pub struct FunctionLiteral {
    pub parameters: Vec<IdentifierExpression>,
    pub body: BlockStatement,
}

/// A call: the callee and its arguments in order.
#[derive(Debug, PartialEq, Eq, Hash)]
pub struct CallExpression {
    pub function: Expression,
    pub arguments: Vec<Expression>,
}

/// Statements between braces.
#[derive(Debug, PartialEq, Eq, Hash)]
pub struct BlockStatement {
    pub statements: Vec<Statement>,
}

/// `let name = value`.
#[derive(Debug, PartialEq, Eq, Hash)]
pub struct LetStatement {
    pub name: String,
    pub value: Expression,
}

/// `return`, with or without a value.
#[derive(Debug, PartialEq, Eq, Hash)]
pub struct ReturnStatement {
    pub value: Option<Expression>,
}

/// An expression standing as a statement.
#[derive(Debug, PartialEq, Eq, Hash)]
pub struct ExpressionStatement {
    pub expression: Expression,
}

/// A statement of the language.
#[derive(Debug, PartialEq, Eq, Hash)]
pub enum Statement {
    Let(LetStatement),
    Return(ReturnStatement),
    Expression(ExpressionStatement),
    Block(BlockStatement),
}

/// A whole program: its statements in order.
#[derive(Debug, PartialEq, Eq, Hash)]
pub struct Program {
    pub body: Vec<Statement>,
}

/// The mathematical content of an expression.
pub enum Expr {
    Identifier(Seq<char>),
    Integer(i64),
    Boolean(bool),
    Str(Seq<char>),
    Prefix { operator: TokenKind, right: Box<Expr> },
    Infix { operator: TokenKind, left: Box<Expr>, right: Box<Expr> },
    If { condition: Box<Expr>, consequence: Seq<Stmt>, alternative: Option<Seq<Stmt>> },
    Function { parameters: Seq<Seq<char>>, body: Seq<Stmt> },
    Call { function: Box<Expr>, arguments: Seq<Expr> },
}

/// The mathematical content of a statement.
pub enum Stmt {
    Let { name: Seq<char>, value: Expr },
    Return { argument: Option<Expr> },
    Expression { expression: Expr },
    Block { statements: Seq<Stmt> },
}

/// The views of a list of names, in order.
pub open spec fn names_view(names: Seq<String>) -> Seq<Seq<char>> {
    Seq::new(names.len(), |i: int| names[i]@)
}

/// The views of the first `n` expressions of a list, in order.
pub open spec fn expressions_prefix(list: Vec<Expression>, n: nat) -> Seq<Expr>
    decreases list, n,
{
    if n == 0 || n > list@.len() {
        Seq::empty()
    } else {
        expressions_prefix(list, (n - 1) as nat).push(list[n - 1].view())
    }
}

/// The views of the first `n` statements of a list, in order.
pub open spec fn statements_prefix(list: Vec<Statement>, n: nat) -> Seq<Stmt>
    decreases list, n,
{
    if n == 0 || n > list@.len() {
        Seq::empty()
    } else {
        statements_prefix(list, (n - 1) as nat).push(list[n - 1].view())
    }
}

/// The views of a list of expressions, in order.
pub open spec fn expressions_view(list: Vec<Expression>) -> Seq<Expr> {
    expressions_prefix(list, list@.len())
}

/// The views of a list of statements, in order.
pub open spec fn statements_view(list: Vec<Statement>) -> Seq<Stmt> {
    statements_prefix(list, list@.len())
}

impl View for Expression {
    type V = Expr;

    open spec fn view(&self) -> Expr
        decreases self,
    {
        match self {
            Expression::Identifier(name) => Expr::Identifier(name@),
            Expression::Integer(value) => Expr::Integer(*value),
            Expression::Boolean(value) => Expr::Boolean(*value),
            Expression::String(text) => Expr::Str(text@),
            Expression::Prefix(p) => Expr::Prefix {
                operator: p.operator,
                right: Box::new(p.right.view()),
            },
            Expression::Infix(x) => Expr::Infix {
                operator: x.operator,
                left: Box::new(x.left.view()),
                right: Box::new(x.right.view()),
            },
            Expression::If(c) => Expr::If {
                condition: Box::new(c.condition.view()),
                consequence: statements_prefix(
                    c.consequence.statements,
                    c.consequence.statements@.len(),
                ),
                alternative: match c.alternative {
                    Some(block) => Some(statements_prefix(block.statements, block.statements@.len())),
                    None => None,
                },
            },
            Expression::Function(f) => Expr::Function {
                parameters: names_view(f.parameters@),
                body: statements_prefix(f.body.statements, f.body.statements@.len()),
            },
            Expression::Call(c) => Expr::Call {
                function: Box::new(c.function.view()),
                arguments: expressions_prefix(c.arguments, c.arguments@.len()),
            },
        }
    }
}

impl View for Statement {
    type V = Stmt;

    open spec fn view(&self) -> Stmt
        decreases self,
    {
        match self {
            Statement::Let(l) => Stmt::Let { name: l.name@, value: l.value.view() },
            Statement::Return(r) => Stmt::Return {
                argument: match r.value {
                    Some(e) => Some(e.view()),
                    None => None,
                },
            },
            Statement::Expression(s) => Stmt::Expression { expression: s.expression.view() },
            Statement::Block(b) => Stmt::Block {
                statements: statements_prefix(b.statements, b.statements@.len()),
            },
        }
    }
}

impl View for PrefixExpression {
    type V = Expr;

    open spec fn view(&self) -> Expr {
        Expression::Prefix(Box::new(*self)).view()
    }
}

impl View for InfixExpression {
    type V = Expr;

    open spec fn view(&self) -> Expr {
        Expression::Infix(Box::new(*self)).view()
    }
}

impl View for FunctionLiteral {
    type V = Expr;

    open spec fn view(&self) -> Expr {
        Expression::Function(Box::new(*self)).view()
    }
}

impl View for IfExpression {
    type V = Expr;

    open spec fn view(&self) -> Expr {
        Expression::If(Box::new(*self)).view()
    }
}

impl View for CallExpression {
    type V = Expr;

    open spec fn view(&self) -> Expr {
        Expression::Call(Box::new(*self)).view()
    }
}

impl View for LetStatement {
    type V = Stmt;

    open spec fn view(&self) -> Stmt {
        Statement::Let(*self).view()
    }
}

impl View for ReturnStatement {
    type V = Stmt;

    open spec fn view(&self) -> Stmt {
        Statement::Return(*self).view()
    }
}

impl View for ExpressionStatement {
    type V = Stmt;

    open spec fn view(&self) -> Stmt {
        Statement::Expression(*self).view()
    }
}

impl View for BlockStatement {
    type V = Seq<Stmt>;

    open spec fn view(&self) -> Seq<Stmt> {
        statements_view(self.statements)
    }
}

impl View for Program {
    type V = Seq<Stmt>;

    open spec fn view(&self) -> Seq<Stmt> {
        statements_view(self.body)
    }
}

/// An independent copy of a list of names.
pub fn copy_names(names: &Vec<String>) -> (r: Vec<String>)
    ensures
        r@ == names@,
{
    let mut out: Vec<String> = Vec::new();
    let mut i: usize = 0;
    while i < names.len()
        invariant
            i <= names.len(),
            out@ == names@.take(i as int),
        decreases names.len() - i,
    {
        out.push(names[i].clone());
        i = i + 1;
        assert(out@ =~= names@.take(i as int));
    }
    assert(names@.take(names.len() as int) =~= names@);
    out
}

/// An independent copy of a list of expressions.
#[verifier::loop_isolation(false)]
pub fn copy_expressions(list: &Vec<Expression>) -> (r: Vec<Expression>)
    ensures
        expressions_view(r) == expressions_view(*list),
    decreases list,
{
    let mut out: Vec<Expression> = Vec::new();
    let mut i: usize = 0;
    while i < list.len()
        invariant
            i <= list.len(),
            out.len() == i,
            forall|j: int| 0 <= j < i ==> out[j]@ == list[j]@,
        decreases list.len() - i,
    {
        proof {
            assert(decreases_to!(list => list[i as int]));
        }
        out.push(list[i].duplicate());
        i = i + 1;
    }
    proof {
        lemma_expressions_view(out);
        lemma_expressions_view(*list);
        assert(expressions_view(out) =~= expressions_view(*list));
    }
    out
}

/// An independent copy of a list of statements.
#[verifier::loop_isolation(false)]
pub fn copy_statements(list: &Vec<Statement>) -> (r: Vec<Statement>)
    ensures
        statements_view(r) == statements_view(*list),
    decreases list,
{
    let mut out: Vec<Statement> = Vec::new();
    let mut i: usize = 0;
    while i < list.len()
        invariant
            i <= list.len(),
            out.len() == i,
            forall|j: int| 0 <= j < i ==> out[j]@ == list[j]@,
        decreases list.len() - i,
    {
        proof {
            assert(decreases_to!(list => list[i as int]));
        }
        out.push(list[i].duplicate());
        i = i + 1;
    }
    proof {
        lemma_statements_view(out);
        lemma_statements_view(*list);
        assert(statements_view(out) =~= statements_view(*list));
    }
    out
}

impl BlockStatement {
    /// An independent copy of the block.
    pub fn duplicate(&self) -> (r: BlockStatement)
        ensures
            r@ == self@,
        decreases self,
    {
        BlockStatement { statements: copy_statements(&self.statements) }
    }
}

impl Expression {
    /// An independent copy of the expression.
    pub fn duplicate(&self) -> (r: Expression)
        ensures
            r@ == self@,
        decreases self,
    {
        match self {
            Expression::Identifier(name) => Expression::Identifier(name.clone()),
            Expression::Integer(value) => Expression::Integer(*value),
            Expression::Boolean(value) => Expression::Boolean(*value),
            Expression::String(text) => Expression::String(text.clone()),
            Expression::Prefix(p) => Expression::Prefix(
                Box::new(PrefixExpression { operator: p.operator, right: p.right.duplicate() }),
            ),
            Expression::Infix(x) => Expression::Infix(
                Box::new(
                    InfixExpression {
                        left: x.left.duplicate(),
                        operator: x.operator,
                        right: x.right.duplicate(),
                    },
                ),
            ),
            Expression::If(c) => {
                let alternative = match &c.alternative {
                    Some(block) => Some(block.duplicate()),
                    None => None,
                };
                Expression::If(
                    Box::new(
                        IfExpression {
                            condition: c.condition.duplicate(),
                            consequence: c.consequence.duplicate(),
                            alternative,
                        },
                    ),
                )
            },
            Expression::Function(f) => Expression::Function(
                Box::new(
                    FunctionLiteral {
                        parameters: copy_names(&f.parameters),
                        body: f.body.duplicate(),
                    },
                ),
            ),
            Expression::Call(c) => Expression::Call(
                Box::new(
                    CallExpression {
                        function: c.function.duplicate(),
                        arguments: copy_expressions(&c.arguments),
                    },
                ),
            ),
        }
    }
}

impl Statement {
    /// An independent copy of the statement.
    pub fn duplicate(&self) -> (r: Statement)
        ensures
            r@ == self@,
        decreases self,
    {
        match self {
            Statement::Let(l) => Statement::Let(
                LetStatement { name: l.name.clone(), value: l.value.duplicate() },
            ),
            Statement::Return(r) => {
                let value = match &r.value {
                    Some(e) => Some(e.duplicate()),
                    None => None,
                };
                Statement::Return(ReturnStatement { value })
            },
            Statement::Expression(s) => Statement::Expression(
                ExpressionStatement { expression: s.expression.duplicate() },
            ),
            Statement::Block(b) => Statement::Block(b.duplicate()),
        }
    }
}

/// The views of the first `n` expressions, item by item.
pub proof fn lemma_expressions_prefix(list: Vec<Expression>, n: nat)
    requires
        n <= list@.len(),
    ensures
        expressions_prefix(list, n).len() == n,
        forall|i: int| 0 <= i < n ==> #[trigger] expressions_prefix(list, n)[i] == list@[i]@,
    decreases n,
{
    if n > 0 {
        lemma_expressions_prefix(list, (n - 1) as nat);
        assert(expressions_prefix(list, n) == expressions_prefix(list, (n - 1) as nat).push(
            list[n - 1].view(),
        ));
    } else {
        assert(expressions_prefix(list, n) == Seq::<Expr>::empty());
    }
}

/// The views of the first `n` statements, item by item.
pub proof fn lemma_statements_prefix(list: Vec<Statement>, n: nat)
    requires
        n <= list@.len(),
    ensures
        statements_prefix(list, n).len() == n,
        forall|i: int| 0 <= i < n ==> #[trigger] statements_prefix(list, n)[i] == list@[i]@,
    decreases n,
{
    if n > 0 {
        lemma_statements_prefix(list, (n - 1) as nat);
        assert(statements_prefix(list, n) == statements_prefix(list, (n - 1) as nat).push(
            list[n - 1].view(),
        ));
    } else {
        assert(statements_prefix(list, n) == Seq::<Stmt>::empty());
    }
}

/// The view of a list of expressions, item by item.
pub proof fn lemma_expressions_view(list: Vec<Expression>)
    ensures
        expressions_view(list).len() == list@.len(),
        forall|i: int| 0 <= i < list@.len() ==> #[trigger] expressions_view(list)[i] == list@[i]@,
{
    lemma_expressions_prefix(list, list@.len());
}

/// The view of a list of statements, item by item.
pub proof fn lemma_statements_view(list: Vec<Statement>)
    ensures
        statements_view(list).len() == list@.len(),
        forall|i: int| 0 <= i < list@.len() ==> #[trigger] statements_view(list)[i] == list@[i]@,
{
    lemma_statements_prefix(list, list@.len());
}

/// The view of a list of expressions that grew by one item at its end.
pub proof fn lemma_expressions_view_push(
    before: Vec<Expression>,
    after: Vec<Expression>,
    item: Expression,
)
    requires
        after@ == before@.push(item),
    ensures
        expressions_view(after) == expressions_view(before).push(item@),
{
    lemma_expressions_view(before);
    lemma_expressions_view(after);
    assert(expressions_view(after) =~= expressions_view(before).push(item@));
}

/// The view of a list of statements that grew by one item at its end.
pub proof fn lemma_statements_view_push(
    before: Vec<Statement>,
    after: Vec<Statement>,
    item: Statement,
)
    requires
        after@ == before@.push(item),
    ensures
        statements_view(after) == statements_view(before).push(item@),
{
    lemma_statements_view(before);
    lemma_statements_view(after);
    assert(statements_view(after) =~= statements_view(before).push(item@));
}

/// The view of a list of names that grew by one item at its end.
pub proof fn lemma_names_view_push(before: Seq<String>, item: String)
    ensures
        names_view(before.push(item)) == names_view(before).push(item@),
{
    assert(names_view(before.push(item)) =~= names_view(before).push(item@));
}

/// An empty list of expressions has an empty view.
pub proof fn lemma_expressions_view_empty(list: Vec<Expression>)
    requires
        list@.len() == 0,
    ensures
        expressions_view(list) == Seq::<Expr>::empty(),
{
    assert(expressions_view(list) =~= Seq::<Expr>::empty());
}

/// An empty list of statements has an empty view.
pub proof fn lemma_statements_view_empty(list: Vec<Statement>)
    requires
        list@.len() == 0,
    ensures
        statements_view(list) == Seq::<Stmt>::empty(),
{
    assert(statements_view(list) =~= Seq::<Stmt>::empty());
}

impl Clone for Expression {
    /// An independent copy of the expression.
    fn clone(&self) -> (r: Self)
        ensures
            r@ == self@,
    {
        self.duplicate()
    }
}

impl Clone for Statement {
    /// An independent copy of the statement.
    fn clone(&self) -> (r: Self)
        ensures
            r@ == self@,
    {
        self.duplicate()
    }
}

impl Clone for BlockStatement {
    /// An independent copy of the block.
    fn clone(&self) -> (r: Self)
        ensures
            r@ == self@,
    {
        self.duplicate()
    }
}

impl Clone for PrefixExpression {
    /// An independent copy of the operator and its operand.
    fn clone(&self) -> (r: Self)
        ensures
            r@ == self@,
    {
        PrefixExpression { operator: self.operator, right: self.right.duplicate() }
    }
}

impl Clone for InfixExpression {
    /// An independent copy of the operator and its operands.
    fn clone(&self) -> (r: Self)
        ensures
            r@ == self@,
    {
        InfixExpression {
            left: self.left.duplicate(),
            operator: self.operator,
            right: self.right.duplicate(),
        }
    }
}

impl Clone for IfExpression {
    /// An independent copy of the conditional.
    fn clone(&self) -> (r: Self)
        ensures
            r@ == self@,
    {
        let alternative = match &self.alternative {
            Some(block) => Some(block.duplicate()),
            None => None,
        };
        IfExpression {
            condition: self.condition.duplicate(),
            consequence: self.consequence.duplicate(),
            alternative,
        }
    }
}

impl Clone for FunctionLiteral {
    /// An independent copy of the function literal.
    fn clone(&self) -> (r: Self)
        ensures
            r@ == self@,
    {
        FunctionLiteral { parameters: copy_names(&self.parameters), body: self.body.duplicate() }
    }
}

impl Clone for CallExpression {
    /// An independent copy of the call.
    fn clone(&self) -> (r: Self)
        ensures
            r@ == self@,
    {
        CallExpression {
            function: self.function.duplicate(),
            arguments: copy_expressions(&self.arguments),
        }
    }
}

impl Clone for LetStatement {
    /// An independent copy of the statement.
    fn clone(&self) -> (r: Self)
        ensures
            r@ == self@,
    {
        LetStatement { name: self.name.clone(), value: self.value.duplicate() }
    }
}

impl Clone for ReturnStatement {
    /// An independent copy of the statement.
    fn clone(&self) -> (r: Self)
        ensures
            r@ == self@,
    {
        let value = match &self.value {
            Some(e) => Some(e.duplicate()),
            None => None,
        };
        ReturnStatement { value }
    }
}

impl Clone for ExpressionStatement {
    /// An independent copy of the statement.
    fn clone(&self) -> (r: Self)
        ensures
            r@ == self@,
    {
        ExpressionStatement { expression: self.expression.duplicate() }
    }
}

impl Clone for Program {
    /// An independent copy of the program.
    fn clone(&self) -> (r: Self)
        ensures
            r@ == self@,
    {
        Program { body: copy_statements(&self.body) }
    }
}

} // verus!
