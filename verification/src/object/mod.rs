//! Runtime values and the environments that bind names to them.
//!
//! Values are shared by reference counting and never change once made.
//! Environments live in an arena and refer to each other by index: a
//! function value holds the index of the scope in which it was made, and
//! each call gets a scope of its own that is enclosed by that scope. A scope
//! stays in the arena for as long as the arena lives.

use vstd::prelude::*;
use vstd::hash_map::StringHashMap;
use std::rc::Rc;
use crate::parser::node::{
    lemma_statements_view,
    names_view,
    BlockStatement,
    IdentifierExpression,
    Stmt,
};
use crate::parser::render::{render_bool, render_names, render_stmts, write_names, write_statements};
use crate::text::{decimal, push_decimal};

verus! {

/// A runtime value.
#[derive(Clone, Debug, PartialEq, Eq, Hash)]
pub enum Object {
    Int(i64),
    Bool(bool),
    String(String),
    /// A value on its way out of the blocks that enclose a `return`.
    Return(Rc<Return>),
    Function(Rc<Function>),
    Null,
}

/// The value that a `return` carries.
#[derive(Clone, Debug, PartialEq, Eq, Hash)]
pub struct Return {
    pub value: Rc<Object>,
}

/// A function value: parameter names, a body, and the environment in which
/// the function literal was evaluated, by its index in the arena.
#[derive(Clone, Debug, PartialEq, Eq, Hash)]
pub struct Function {
    pub parameters: Vec<IdentifierExpression>,
    pub body: BlockStatement,
    pub env: usize,
}

/// The mathematical content of a runtime value.
pub enum Value {
    Int(i64),
    Bool(bool),
    Str(Seq<char>),
    Return(Box<Value>),
    Function { parameters: Seq<Seq<char>>, body: Seq<Stmt>, env: nat },
    Null,
}

impl View for Object {
    type V = Value;

    open spec fn view(&self) -> Value
        decreases self,
    {
        match self {
            Object::Int(i) => Value::Int(*i),
            Object::Bool(b) => Value::Bool(*b),
            Object::String(s) => Value::Str(s@),
            Object::Return(r) => Value::Return(Box::new((*r.value).view())),
            Object::Function(f) => Value::Function {
                parameters: names_view(f.parameters@),
                body: f.body@,
                env: f.env as nat,
            },
            Object::Null => Value::Null,
        }
    }
}

/// How a value is displayed: an integer in decimal, a truth value as `true`
/// or `false`, a string as it is, null as `null`, and a value on its way
/// out as the value itself. A function is displayed as `fn(`, its parameter
/// names separated by a comma and a blank, `) { `, the source of its body,
/// and ` }`: `fn(x) { x }`. The statements of the body are written without
/// a semicolon of their own and separated by a semicolon and a blank; the
/// empty body leaves the two blanks, `fn(a) {  }`.
pub open spec fn inspect(v: Value) -> Seq<char>
    decreases v,
{
    match v {
        Value::Int(i) => decimal(i as int),
        Value::Bool(b) => render_bool(b),
        Value::Str(s) => s,
        Value::Return(inner) => inspect(*inner),
        Value::Function { parameters, body, env } => "fn("@ + render_names(
            parameters,
            parameters.len(),
        ) + ") { "@ + render_stmts(body, body.len()) + " }"@,
        Value::Null => "null"@,
    }
}

/// How a value is written in messages that name its kind: the kind, and in
/// parentheses what `inspect` shows, a string between double quotes.
pub open spec fn describe(v: Value) -> Seq<char>
    decreases v,
{
    match v {
        Value::Int(i) => "Int("@ + decimal(i as int) + ")"@,
        Value::Bool(b) => "Bool("@ + render_bool(b) + ")"@,
        Value::Str(s) => "String(\""@ + s + "\")"@,
        Value::Return(inner) => "Return("@ + describe(*inner) + ")"@,
        Value::Function { parameters, body, env } => "Function("@ + inspect(v) + ")"@,
        Value::Null => "Null"@,
    }
}

/// A second handle to a shared value.
///
/// Wraps `Rc::clone` of the standard library, which is documented to make
/// another pointer to the same allocation: the new handle points to the
/// value that the given one points to.
#[verifier::external_body]
pub(crate) fn share(o: &Rc<Object>) -> (r: Rc<Object>)
    ensures
        r == *o,
{
    Rc::clone(o)
}

impl View for Function {
    type V = Value;

    open spec fn view(&self) -> Value {
        Value::Function {
            parameters: names_view(self.parameters@),
            body: self.body@,
            env: self.env as nat,
        }
    }
}

impl Function {
    /// The function as source text.
    pub fn inspect(&self) -> (r: String)
        ensures
            r@ == inspect(self@),
    {
        let mut out = String::new();
        self.write(&mut out);
        assert(out@ =~= inspect(self@));
        out
    }

    /// Appends the function as source text.
    pub fn write(&self, out: &mut String)
        ensures
            final(out)@ == old(out)@ + inspect(self@),
    {
        proof {
            lemma_statements_view(self.body.statements);
        }
        out.append("fn(");
        write_names(out, &self.parameters);
        out.append(") { ");
        write_statements(out, &self.body.statements);
        out.append(" }");
        assert(names_view(self.parameters@).len() == self.parameters@.len());
        assert(out@ =~= old(out)@ + inspect(self@));
    }
}

impl Object {
    /// The value as it is displayed.
    pub fn inspect(&self) -> (r: String)
        ensures
            r@ == inspect(self@),
    {
        let mut out = String::new();
        self.write_inspect(&mut out);
        assert(out@ =~= inspect(self@));
        out
    }

    /// Appends the value as it is displayed.
    pub fn write_inspect(&self, out: &mut String)
        ensures
            final(out)@ == old(out)@ + inspect(self@),
        decreases self,
    {
        match self {
            Object::Int(i) => {
                push_decimal(out, *i);
            },
            Object::Bool(b) => {
                if *b {
                    out.append("true");
                } else {
                    out.append("false");
                }
            },
            Object::String(s) => {
                out.append(s.as_str());
            },
            Object::Return(r) => {
                r.value.write_inspect(out);
            },
            Object::Function(f) => {
                f.write(out);
            },
            Object::Null => {
                out.append("null");
            },
        }
    }

    /// The value as it is written in messages that name its kind.
    pub fn describe(&self) -> (r: String)
        ensures
            r@ == describe(self@),
    {
        let mut out = String::new();
        self.write_describe(&mut out);
        assert(out@ =~= describe(self@));
        out
    }

    /// Appends the value as it is written in messages that name its kind.
    pub fn write_describe(&self, out: &mut String)
        ensures
            final(out)@ == old(out)@ + describe(self@),
        decreases self,
    {
        match self {
            Object::Int(i) => {
                out.append("Int(");
                push_decimal(out, *i);
                out.append(")");
                assert(out@ =~= old(out)@ + describe(self@));
            },
            Object::Bool(b) => {
                out.append("Bool(");
                if *b {
                    out.append("true");
                } else {
                    out.append("false");
                }
                out.append(")");
                assert(out@ =~= old(out)@ + describe(self@));
            },
            Object::String(s) => {
                out.append("String(\"");
                out.append(s.as_str());
                out.append("\")");
                assert(out@ =~= old(out)@ + describe(self@));
            },
            Object::Return(r) => {
                out.append("Return(");
                r.value.write_describe(out);
                out.append(")");
                assert(out@ =~= old(out)@ + describe(self@));
            },
            Object::Function(f) => {
                out.append("Function(");
                f.write(out);
                out.append(")");
                assert(out@ =~= old(out)@ + describe(self@));
            },
            Object::Null => {
                out.append("Null");
            },
        }
    }
}

/// The mathematical content of an environment: what each name is bound to,
/// and the index of the enclosing environment, if there is one.
pub struct Scope {
    pub store: Map<Seq<char>, Value>,
    pub outer: Option<nat>,
}

impl Scope {
    /// The scope without bindings that nothing encloses.
    pub open spec fn root() -> Scope {
        Scope { store: Map::empty(), outer: None }
    }

    /// The scope without bindings that scope `outer` encloses.
    pub open spec fn enclosed_by(outer: nat) -> Scope {
        Scope { store: Map::empty(), outer: Some(outer) }
    }

    /// The scope without bindings that is added behind `count` scopes and
    /// asks for scope `outer` to enclose it: it is enclosed by that scope
    /// where it is one of the `count`, and by none where it is not.
    pub open spec fn added_behind(count: nat, outer: nat) -> Scope {
        if outer < count {
            Scope::enclosed_by(outer)
        } else {
            Scope::root()
        }
    }

    /// This scope with `name` bound to `v`.
    pub open spec fn with(self, name: Seq<char>, v: Value) -> Scope {
        Scope { store: self.store.insert(name, v), outer: self.outer }
    }
}

/// The bindings of one scope, and a link to the scope that encloses it.
pub struct Environment {
    pub store: StringHashMap<Rc<Object>>,
    pub outer: Option<usize>,
}

impl View for Environment {
    type V = Scope;

    open spec fn view(&self) -> Scope {
        Scope {
            store: Map::new(
                |name: Seq<char>| self.store@.contains_key(name),
                |name: Seq<char>| self.store@[name]@,
            ),
            outer: match self.outer {
                Some(o) => Some(o as nat),
                None => None,
            },
        }
    }
}

impl Environment {
    /// An environment without bindings and without an enclosing one.
    pub fn new() -> (r: Self)
        ensures
            r@ == Scope::root(),
    {
        let r = Environment { store: StringHashMap::new(), outer: None };
        assert(r@.store =~= Map::empty());
        r
    }

    /// An environment without bindings, enclosed by the environment at
    /// index `outer` of its arena.
    pub fn enclosed(outer: usize) -> (r: Self)
        ensures
            r@ == Scope::enclosed_by(outer as nat),
    {
        let r = Environment { store: StringHashMap::new(), outer: Some(outer) };
        assert(r@.store =~= Map::empty());
        r
    }

    /// Binds `name` to `val` in this scope; an earlier binding of the name
    /// is replaced.
    pub fn set(&mut self, name: String, val: Rc<Object>)
        ensures
            final(self)@ == old(self)@.with(name@, val@),
    {
        self.store.insert(name, val);
        assert(self@.store =~= old(self)@.store.insert(name@, val@));
    }

    /// What `name` is bound to in this scope itself.
    pub fn get(&self, name: &str) -> (r: Option<Rc<Object>>)
        ensures
            match r {
                Some(o) => self@.store.contains_key(name@) && o@ == self@.store[name@],
                None => !self@.store.contains_key(name@),
            },
    {
        match self.store.get(name) {
            Some(obj) => Some(share(obj)),
            None => None,
        }
    }
}

/// Whether every scope that names an enclosing scope names one that was
/// made before it. The scopes of a new arena are such, and so are the
/// scopes that the arena adds and those that an evaluation leaves.
pub open spec fn links_inward(heap: Seq<Scope>) -> bool {
    forall|i: int|
        0 <= i < heap.len() ==> match (#[trigger] heap[i]).outer {
            Some(outer) => outer < i,
            None => true,
        }
}

/// What `name` is bound to as seen from scope `env`: the binding of the
/// innermost scope that has one, from `env` outwards. A link is followed
/// only to a scope of lower index, as every scope made by the arena has it.
pub open spec fn resolve(heap: Seq<Scope>, env: nat, name: Seq<char>) -> Option<Value>
    decreases env,
{
    if env >= heap.len() {
        None
    } else if heap[env as int].store.contains_key(name) {
        Some(heap[env as int].store[name])
    } else {
        match heap[env as int].outer {
            Some(outer) => if outer < env {
                resolve(heap, outer, name)
            } else {
                None
            },
            None => None,
        }
    }
}

/// The scopes after `name` is bound to `v` in scope `env`; unchanged where
/// there is no such scope.
pub open spec fn bind(heap: Seq<Scope>, env: nat, name: Seq<char>, v: Value) -> Seq<Scope> {
    if env < heap.len() {
        heap.update(env as int, heap[env as int].with(name, v))
    } else {
        heap
    }
}

/// The environments of one evaluation. Scopes refer to each other by
/// index, so that a function value and the calls it makes can share the
/// scope in which the function was made. Every scope of an arena that names
/// an enclosing scope names one that was made before it: the arena adds no
/// other, and nothing else can reach its scopes.
pub struct Arena {
    scopes: Vec<Environment>,
}

impl View for Arena {
    type V = Seq<Scope>;

    closed spec fn view(&self) -> Seq<Scope> {
        Seq::new(self.scopes@.len(), |i: int| self.scopes@[i]@)
    }
}

impl Arena {
    /// What holds of every arena: the links of its scopes point inward.
    #[verifier::type_invariant]
    pub open spec fn inv(&self) -> bool {
        links_inward(self@)
    }

    /// An arena that holds one empty environment, the root, at index 0.
    pub fn new() -> (r: Self)
        ensures
            r@ == seq![Scope::root()],
            links_inward(r@),
    {
        let mut scopes: Vec<Environment> = Vec::new();
        scopes.push(Environment::new());
        assert(Seq::new(scopes@.len(), |i: int| scopes@[i]@) =~= seq![Scope::root()]);
        Arena { scopes }
    }

    /// The number of scopes.
    pub fn len(&self) -> (n: usize)
        ensures
            n == self@.len(),
    {
        self.scopes.len()
    }

    /// The index of the scope that encloses scope `index`; `None` where
    /// nothing encloses it or there is no such scope.
    pub fn outer_of(&self, index: usize) -> (r: Option<usize>)
        ensures
            links_inward(self@),
            match r {
                Some(outer) => index < self@.len() && self@[index as int].outer == Some(
                    outer as nat,
                ) && outer < index,
                None => index >= self@.len() || self@[index as int].outer is None,
            },
    {
        proof {
            use_type_invariant(self);
        }
        if index < self.scopes.len() {
            self.scopes[index].outer
        } else {
            None
        }
    }

    /// Adds an empty scope and returns its index. The new scope is enclosed
    /// by scope `outer` where there is such a scope, and by none where
    /// there is not: no scope is ever enclosed by one that comes after it.
    pub fn open_scope(&mut self, outer: usize) -> (index: usize)
        ensures
            index == old(self)@.len(),
            final(self)@ == old(self)@.push(
                Scope::added_behind(old(self)@.len(), outer as nat),
            ),
            links_inward(final(self)@),
    {
        proof {
            use_type_invariant(&*self);
        }
        let index = self.scopes.len();
        let mut scopes: Vec<Environment> = Vec::new();
        core::mem::swap(&mut self.scopes, &mut scopes);
        if outer < index {
            scopes.push(Environment::enclosed(outer));
        } else {
            scopes.push(Environment::new());
        }
        let ghost after = Seq::new(scopes@.len(), |i: int| scopes@[i]@);
        assert(after =~= old(self)@.push(Scope::added_behind(old(self)@.len(), outer as nat)));
        assert(links_inward(after));
        core::mem::swap(&mut self.scopes, &mut scopes);
        assert(self@ =~= after);
        index
    }

    /// Binds `name` to `value` in scope `env`; nothing changes where there
    /// is no such scope.
    pub fn define(&mut self, env: usize, name: String, value: Rc<Object>)
        ensures
            final(self)@ == bind(old(self)@, env as nat, name@, value@),
            links_inward(final(self)@),
    {
        proof {
            use_type_invariant(&*self);
        }
        if env < self.scopes.len() {
            let mut scopes: Vec<Environment> = Vec::new();
            core::mem::swap(&mut self.scopes, &mut scopes);
            scopes[env].set(name, value);
            let ghost after = Seq::new(scopes@.len(), |i: int| scopes@[i]@);
            assert(after =~= bind(old(self)@, env as nat, name@, value@));
            assert(links_inward(after)) by {
                assert forall|i: int| 0 <= i < after.len() implies match (#[trigger] after[i]).outer {
                    Some(outer) => outer < i,
                    None => true,
                } by {
                    assert(after[i].outer == old(self)@[i].outer);
                }
            }
            core::mem::swap(&mut self.scopes, &mut scopes);
            assert(self@ =~= after);
        }
    }

    /// What `name` is bound to as seen from scope `env`: what the scope
    /// itself binds it to, and where it binds nothing, what the enclosing
    /// scope sees, and so on outwards.
    pub fn lookup(&self, env: usize, name: &str) -> (r: Option<Rc<Object>>)
        ensures
            links_inward(self@),
            match r {
                Some(o) => resolve(self@, env as nat, name@) == Some(o@),
                None => resolve(self@, env as nat, name@) is None,
            },
    {
        proof {
            use_type_invariant(self);
        }
        let mut cur: usize = env;
        loop
            invariant
                links_inward(self@),
                resolve(self@, cur as nat, name@) == resolve(self@, env as nat, name@),
            decreases cur,
        {
            if cur >= self.scopes.len() {
                return None;
            }
            match self.scopes[cur].get(name) {
                Some(o) => {
                    return Some(o);
                },
                None => {},
            }
            match self.scopes[cur].outer {
                Some(outer) => {
                    assert(outer < cur) by {
                        assert(self@[cur as int].outer == Some(outer as nat));
                    }
                    cur = outer;
                },
                None => {
                    return None;
                },
            }
        }
    }
}

} // verus!
