//! Laws of whole source texts: what a text that is put together from parts
//! parses to, and what it evaluates to.

use vstd::prelude::*;
use crate::composition::{
    apart,
    content,
    is_word_char,
    law_content_word,
    law_content_concatenation,
    law_content_comparison,
    law_content_digits,
    law_content_punctuator,
    law_content_spaced,
    law_content_truth,
    legal_text,
    lemma_words_of_text,
    word_of,
    Word,
};
use crate::evaluator::laws::{law_double_negation_of_expression, not_operator};
use crate::evaluator::semantics::{
    leave,
    strip_returns,
    truthy,
    eval_expr,
    eval_program,
    eval_statements,
    eval_stmt,
    fault_message,
    Fault,
    Outcome,
};
use crate::lexer::{is_letter, lex, word_kind};
use crate::object::{describe, resolve, Scope, Value};
use crate::parser::grammar::{
    kind_at,
    parse_expression,
    parse_infix_loop,
    parse_prefix,
    parse_program,
    parse_statement,
    parse_statements,
    token_at,
    ParseErrorView,
};
use crate::parser::context::{law_expression_in_context, same_window};
use crate::parser::node::{Expr, Stmt};
use crate::parser::parse_source;
use crate::parser::render::render_bool;
use crate::text::numeral_value;
use crate::token::{
    kind_text,
    precedence_of,
    punctuator_text,
    PREFIX,
    Keyword,
    Punctuator,
    TokenKind,
    TokenView,
    LOWEST,
};

verus! {

/// A blank.
pub open spec fn blank() -> Seq<char> {
    seq![' ']
}

/// Whether a punctuator is one of the binary operators
/// `+ - * / < > == !=`.
pub open spec fn is_binary(op: Punctuator) -> bool {
    op == Punctuator::Add || op == Punctuator::Sub || op == Punctuator::Mul || op
        == Punctuator::Div || op == Punctuator::LessThan || op == Punctuator::GreaterThan || op
        == Punctuator::Eq || op == Punctuator::NotEq
}

/// The keyword of a truth value.
pub open spec fn truth_keyword(value: bool) -> TokenKind {
    TokenKind::Keyword(
        if value {
            Keyword::True
        } else {
            Keyword::False
        },
    )
}

/// The text of a binary operator alone says the operator.
pub proof fn lemma_content_operator(op: Punctuator)
    requires
        is_binary(op),
    ensures
        content(punctuator_text(op)) == seq![
            Word { kind: TokenKind::Punctuator(op), literal: punctuator_text(op) },
        ],
        legal_text(punctuator_text(op)),
{
    reveal_strlit("+");
    reveal_strlit("-");
    reveal_strlit("*");
    reveal_strlit("/");
    reveal_strlit("<");
    reveal_strlit(">");
    reveal_strlit("==");
    reveal_strlit("!=");
    let text = punctuator_text(op);
    if op == Punctuator::Eq || op == Punctuator::NotEq {
        let c = text[0];
        assert(text =~= seq![c, '=']);
        law_content_comparison(c);
    } else {
        let c = text[0];
        assert(text =~= seq![c]);
        law_content_punctuator(c);
    }
}

/// The tokens of three words: the words, and the end of the input.
pub proof fn lemma_three_words(text: Seq<char>, a: Word, b: Word, c: Word)
    requires
        content(text) == seq![a, b, c],
    ensures
        lex(text).len() == 4,
        word_of(token_at(lex(text), 0)) == a,
        word_of(token_at(lex(text), 1)) == b,
        word_of(token_at(lex(text), 2)) == c,
        kind_at(lex(text), 3) == TokenKind::EndOfInput,
{
    lemma_words_of_text(text);
    assert(content(text)[0] == a);
    assert(content(text)[1] == b);
    assert(content(text)[2] == c);
    assert(word_of(lex(text)[0]) == content(text)[0]);
    assert(word_of(lex(text)[1]) == content(text)[1]);
    assert(word_of(lex(text)[2]) == content(text)[2]);
}

/// A binary operator between two atoms parses to the operator applied to
/// the atoms.
pub proof fn lemma_operator_between(
    ts: Seq<TokenView>,
    op: Punctuator,
    left: Expr,
    right: Expr,
)
    requires
        ts.len() == 4,
        is_binary(op),
        parse_prefix(ts, 0) == Ok::<(Expr, nat), ParseErrorView>((left, 1)),
        kind_at(ts, 1) == TokenKind::Punctuator(op),
        parse_prefix(ts, 2) == Ok::<(Expr, nat), ParseErrorView>((right, 3)),
        kind_at(ts, 3) == TokenKind::EndOfInput,
    ensures
        parse_program(ts) == Ok::<Seq<Stmt>, ParseErrorView>(
            seq![
                Stmt::Expression {
                    expression: Expr::Infix {
                        operator: TokenKind::Punctuator(op),
                        left: Box::new(left),
                        right: Box::new(right),
                    },
                },
            ],
        ),
{
    let operator = TokenKind::Punctuator(op);
    let level = precedence_of(operator);
    let whole = Expr::Infix { operator, left: Box::new(left), right: Box::new(right) };
    let statement = Stmt::Expression { expression: whole };
    assert(parse_infix_loop(ts, 3, level, right) == Ok::<(Expr, nat), ParseErrorView>(
        (right, 3),
    ));
    assert(parse_expression(ts, 2, level) == Ok::<(Expr, nat), ParseErrorView>((right, 3)));
    assert(parse_infix_loop(ts, 3, LOWEST, whole) == Ok::<(Expr, nat), ParseErrorView>(
        (whole, 3),
    ));
    assert(parse_infix_loop(ts, 1, LOWEST, left) == Ok::<(Expr, nat), ParseErrorView>(
        (whole, 3),
    ));
    assert(parse_expression(ts, 0, LOWEST) == Ok::<(Expr, nat), ParseErrorView>((whole, 3)));
    assert(kind_at(ts, 0) != TokenKind::Keyword(Keyword::Let));
    assert(kind_at(ts, 0) != TokenKind::Keyword(Keyword::Return));
    assert(parse_statement(ts, 0) == Ok::<(Stmt, nat), ParseErrorView>((statement, 3)));
    assert(Seq::<Stmt>::empty().push(statement) =~= seq![statement]);
    assert(parse_statements(ts, 3, seq![statement]) == Ok::<Seq<Stmt>, ParseErrorView>(
        seq![statement],
    ));
    assert(parse_statements(ts, 0, Seq::empty()) == Ok::<Seq<Stmt>, ParseErrorView>(
        seq![statement],
    ));
}

/// What three texts with blanks between them say is what they say, one
/// after the other.
pub proof fn lemma_spaced_three(x: Seq<char>, y: Seq<char>, z: Seq<char>)
    requires
        legal_text(x),
        legal_text(y),
        legal_text(z),
    ensures
        content(x + blank() + y + blank() + z) == content(x) + content(y) + content(z),
        legal_text(x + blank() + y + blank() + z),
{
    let tail = y + blank() + z;
    law_content_spaced(y, z);
    law_content_spaced(x, tail);
    assert(x + blank() + y + blank() + z =~= x + blank() + tail);
    assert(content(x) + (content(y) + content(z)) =~= content(x) + content(y) + content(z));
}

/// Two texts that each say one word, with a binary operator between them
/// and blanks around it, say the first word, the operator and the second
/// word.
pub proof fn lemma_three_say(x: Seq<char>, a: Word, op: Punctuator, z: Seq<char>, c: Word)
    requires
        is_binary(op),
        content(x) == seq![a],
        content(z) == seq![c],
        legal_text(x),
        legal_text(z),
    ensures
        content(x + blank() + punctuator_text(op) + blank() + z) == seq![
            a,
            Word { kind: TokenKind::Punctuator(op), literal: punctuator_text(op) },
            c,
        ],
{
    lemma_content_operator(op);
    lemma_spaced_three(x, punctuator_text(op), z);
    assert(content(x) + content(punctuator_text(op)) + content(z) =~= seq![
        a,
        Word { kind: TokenKind::Punctuator(op), literal: punctuator_text(op) },
        c,
    ]);
}

/// The literal that an atom of the two kinds spells: an integer or a truth
/// value.
pub open spec fn literal_of(word: Word) -> Expr {
    if word.kind == TokenKind::Integer {
        Expr::Integer(numeral_value(word.literal)->Some_0 as i64)
    } else {
        Expr::Boolean(word.kind == TokenKind::Keyword(Keyword::True))
    }
}

/// Whether a word is the numeral of a 64-bit integer or a truth value.
pub open spec fn is_literal(word: Word) -> bool {
    (word.kind == TokenKind::Integer && numeral_value(word.literal) is Some) || word.kind
        == TokenKind::Keyword(Keyword::True) || word.kind == TokenKind::Keyword(Keyword::False)
}

/// A text that says a literal, a binary operator and a literal parses to
/// the operator between the literals.
pub proof fn lemma_literals_parse(text: Seq<char>, a: Word, op: Punctuator, c: Word)
    requires
        is_binary(op),
        is_literal(a),
        is_literal(c),
        content(text) == seq![
            a,
            Word { kind: TokenKind::Punctuator(op), literal: punctuator_text(op) },
            c,
        ],
    ensures
        parse_source(text) == Ok::<Seq<Stmt>, ParseErrorView>(
            seq![
                Stmt::Expression {
                    expression: Expr::Infix {
                        operator: TokenKind::Punctuator(op),
                        left: Box::new(literal_of(a)),
                        right: Box::new(literal_of(c)),
                    },
                },
            ],
        ),
{
    let b = Word { kind: TokenKind::Punctuator(op), literal: punctuator_text(op) };
    lemma_three_words(text, a, b, c);
    let ts = lex(text);
    assert(token_at(ts, 0).kind == a.kind && token_at(ts, 0).literal == a.literal);
    assert(token_at(ts, 2).kind == c.kind && token_at(ts, 2).literal == c.literal);
    assert(parse_prefix(ts, 0) == Ok::<(Expr, nat), ParseErrorView>((literal_of(a), 1)));
    assert(parse_prefix(ts, 2) == Ok::<(Expr, nat), ParseErrorView>((literal_of(c), 3)));
    lemma_operator_between(ts, op, literal_of(a), literal_of(c));
}

/// An integer, a binary operator and a truth value, written with blanks
/// between them, fail with a type mismatch. For every numeral `l` of a
/// 64-bit integer, every binary operator and every truth value, the text
/// `l op r` parses to the operator between the two literals, its evaluation
/// leaves the scopes as they were and fails with a type mismatch that holds
/// both operands in the order of the text, and the message reads
/// `type mismatch: `, the integer as `Int(..)`, the operator and the truth
/// value as `Bool(..)`, with blanks between them.
#[verifier::rlimit(100)]
pub proof fn law_type_mismatch_in_source(
    l: Seq<char>,
    op: Punctuator,
    r: bool,
    heap: Seq<Scope>,
    env: nat,
    depth: nat,
)
    requires
        numeral_value(l) is Some,
        is_binary(op),
    ensures
        ({
            let text = l + blank() + punctuator_text(op) + blank() + render_bool(r);
            let operator = TokenKind::Punctuator(op);
            let number = numeral_value(l)->Some_0 as i64;
            let program = seq![
                Stmt::Expression {
                    expression: Expr::Infix {
                        operator,
                        left: Box::new(Expr::Integer(number)),
                        right: Box::new(Expr::Boolean(r)),
                    },
                },
            ];
            let fault = Fault::TypeMismatch {
                left: Value::Int(number),
                operator,
                right: Value::Bool(r),
            };
            &&& parse_source(text) == Ok::<Seq<Stmt>, ParseErrorView>(program)
            &&& eval_program(program, heap, env, depth) == (Outcome { result: Err(fault), heap })
            &&& fault_message(fault) == "type mismatch: "@ + describe(Value::Int(number)) + " "@
                + kind_text(operator) + " "@ + describe(Value::Bool(r))
        }),
{
    let text = l + blank() + punctuator_text(op) + blank() + render_bool(r);
    let a = Word { kind: TokenKind::Integer, literal: l };
    let c = Word { kind: truth_keyword(r), literal: render_bool(r) };
    law_content_digits(l);
    law_content_truth(r);
    lemma_three_say(l, a, op, render_bool(r), c);
    lemma_literals_parse(text, a, op, c);
    lemma_mismatch_of_literals(
        TokenKind::Punctuator(op),
        literal_of(a),
        literal_of(c),
        heap,
        env,
        depth,
    );
}

/// The same with the truth value first: the text `r op l` fails with a
/// type mismatch that holds the truth value and then the integer.
#[verifier::rlimit(100)]
pub proof fn law_type_mismatch_in_source_reversed(
    r: bool,
    op: Punctuator,
    l: Seq<char>,
    heap: Seq<Scope>,
    env: nat,
    depth: nat,
)
    requires
        numeral_value(l) is Some,
        is_binary(op),
    ensures
        ({
            let text = render_bool(r) + blank() + punctuator_text(op) + blank() + l;
            let operator = TokenKind::Punctuator(op);
            let number = numeral_value(l)->Some_0 as i64;
            let program = seq![
                Stmt::Expression {
                    expression: Expr::Infix {
                        operator,
                        left: Box::new(Expr::Boolean(r)),
                        right: Box::new(Expr::Integer(number)),
                    },
                },
            ];
            let fault = Fault::TypeMismatch {
                left: Value::Bool(r),
                operator,
                right: Value::Int(number),
            };
            &&& parse_source(text) == Ok::<Seq<Stmt>, ParseErrorView>(program)
            &&& eval_program(program, heap, env, depth) == (Outcome { result: Err(fault), heap })
            &&& fault_message(fault) == "type mismatch: "@ + describe(Value::Bool(r)) + " "@
                + kind_text(operator) + " "@ + describe(Value::Int(number))
        }),
{
    let text = render_bool(r) + blank() + punctuator_text(op) + blank() + l;
    let a = Word { kind: truth_keyword(r), literal: render_bool(r) };
    let c = Word { kind: TokenKind::Integer, literal: l };
    law_content_digits(l);
    law_content_truth(r);
    lemma_three_say(render_bool(r), a, op, l, c);
    lemma_literals_parse(text, a, op, c);
    lemma_mismatch_of_literals(
        TokenKind::Punctuator(op),
        literal_of(a),
        literal_of(c),
        heap,
        env,
        depth,
    );
}

/// A program of one operator between an integer literal and a truth
/// literal, in either order, fails with a type mismatch.
pub proof fn lemma_mismatch_of_literals(
    operator: TokenKind,
    left: Expr,
    right: Expr,
    heap: Seq<Scope>,
    env: nat,
    depth: nat,
)
    requires
        (left is Integer && right is Boolean) || (left is Boolean && right is Integer),
    ensures
        ({
            let program = seq![
                Stmt::Expression {
                    expression: Expr::Infix {
                        operator,
                        left: Box::new(left),
                        right: Box::new(right),
                    },
                },
            ];
            let fault = Fault::TypeMismatch {
                left: eval_expr(left, heap, env, depth).result->Ok_0,
                operator,
                right: eval_expr(right, heap, env, depth).result->Ok_0,
            };
            eval_program(program, heap, env, depth) == (Outcome { result: Err(fault), heap })
        }),
{
    let whole = Expr::Infix { operator, left: Box::new(left), right: Box::new(right) };
    let statement = Stmt::Expression { expression: whole };
    let program = seq![statement];
    let l = eval_expr(left, heap, env, depth);
    let r = eval_expr(right, heap, env, depth);
    assert(l.heap == heap && r.heap == heap);
    assert(eval_expr(whole, heap, env, depth).result is Err);
    assert(eval_stmt(statement, heap, env, depth) == eval_expr(whole, heap, env, depth));
    assert(program[0] == statement);
    assert(eval_statements(program, 0, Value::Null, heap, env, depth) == eval_expr(
        whole,
        heap,
        env,
        depth,
    ));
}

/// A program of one expression statement yields what the expression
/// yields, without the wrappers of `return`.
pub proof fn lemma_program_of_one_expression(
    expression: Expr,
    heap: Seq<Scope>,
    env: nat,
    depth: nat,
)
    ensures
        eval_program(seq![Stmt::Expression { expression }], heap, env, depth) == leave(
            eval_expr(expression, heap, env, depth),
        ),
{
    let statement = Stmt::Expression { expression };
    let program = seq![statement];
    assert(program[0] == statement);
    assert(eval_stmt(statement, heap, env, depth) == eval_expr(expression, heap, env, depth));
    let o = eval_expr(expression, heap, env, depth);
    match o.result {
        Ok(v) => {
            if !(v is Return) {
                assert(eval_statements(program, 1, v, o.heap, env, depth) == o);
            }
        },
        Err(_) => {},
    }
}

/// The text `!`.
pub open spec fn bang() -> Seq<char> {
    seq!['!']
}

/// The text `(`.
pub open spec fn opening() -> Seq<char> {
    seq!['(']
}

/// The text `)`.
pub open spec fn closing() -> Seq<char> {
    seq![')']
}

/// The word `!`.
pub open spec fn bang_word() -> Word {
    Word { kind: not_operator(), literal: bang() }
}

/// The word `(`.
pub open spec fn opening_word() -> Word {
    Word { kind: TokenKind::Punctuator(Punctuator::OpenParen), literal: opening() }
}

/// The word `)`.
pub open spec fn closing_word() -> Word {
    Word { kind: TokenKind::Punctuator(Punctuator::CloseParen), literal: closing() }
}

/// A text in parentheses says an opening parenthesis, what the text says,
/// and a closing parenthesis.
pub proof fn lemma_group_says(e: Seq<char>)
    requires
        legal_text(e),
    ensures
        content(opening() + e + closing()) == seq![opening_word()] + content(e) + seq![
            closing_word(),
        ],
        legal_text(opening() + e + closing()),
        (opening() + e + closing())[0] == '(',
{
    law_content_punctuator('(');
    law_content_punctuator(')');
    assert(opening()[0] == '(' && closing()[0] == ')');
    assert(apart(e, closing()));
    law_content_concatenation(e, closing());
    let tail = e + closing();
    assert(apart(opening(), tail));
    law_content_concatenation(opening(), tail);
    assert(opening() + e + closing() =~= opening() + tail);
    assert(seq![opening_word()] + (content(e) + seq![closing_word()]) =~= seq![opening_word()]
        + content(e) + seq![closing_word()]);
}

/// A `!` before a text that does not start with `=` says `!` and what the
/// text says.
pub proof fn lemma_bang_says(t: Seq<char>)
    requires
        legal_text(t),
        t.len() > 0,
        t[0] != '=',
    ensures
        content(bang() + t) == seq![bang_word()] + content(t),
        legal_text(bang() + t),
        (bang() + t)[0] == '!',
{
    law_content_punctuator('!');
    assert(bang()[0] == '!');
    assert(bang().last() == '!');
    assert(apart(bang(), t));
    law_content_concatenation(bang(), t);
}

/// The tokens of a text in parentheses behind `count` words hold the
/// tokens of the text as a window, with the closing parenthesis behind it.
pub proof fn lemma_window_of_group(
    text: Seq<char>,
    before: Seq<Word>,
    e: Seq<char>,
)
    requires
        content(text) == before + content(e) + seq![closing_word()],
    ensures
        same_window(lex(e), 0, lex(text), before.len(), content(e).len()),
        lex(text).len() == before.len() + content(e).len() + 2,
        punctuator_at_end(lex(text), before.len() + content(e).len()),
        forall|i: int| 0 <= i < before.len() ==> word_of(#[trigger] lex(text)[i]) == before[i],
{
    let ts1 = lex(e);
    let ts2 = lex(text);
    let m = content(e).len();
    let k = before.len();
    lemma_words_of_text(e);
    lemma_words_of_text(text);
    assert(content(text).len() == k + m + 1);
    assert forall|i: int| 0 <= i < m implies word_of(#[trigger] ts1[i]) == word_of(
        ts2[i - 0 + k],
    ) by {
        assert(word_of(ts1[i]) == content(e)[i]);
        assert(content(text)[i + k] == content(e)[i]);
        assert(word_of(ts2[i + k]) == content(text)[i + k]);
    }
    assert(word_of(ts2[(k + m) as int]) == content(text)[(k + m) as int]);
    assert(content(text)[(k + m) as int] == closing_word());
    assert forall|i: int| 0 <= i < k implies word_of(#[trigger] ts2[i]) == before[i] by {
        assert(content(text)[i] == before[i]);
        assert(word_of(ts2[i]) == content(text)[i]);
    }
}

/// Whether a closing parenthesis stands at `pos` and the end of the input
/// behind it.
pub open spec fn punctuator_at_end(ts: Seq<TokenView>, pos: nat) -> bool {
    kind_at(ts, pos) == TokenKind::Punctuator(Punctuator::CloseParen) && kind_at(ts, pos + 1)
        == TokenKind::EndOfInput && pos + 2 == ts.len()
}

/// Tokens that spell `! ! ( x )` and the end of the input are the program
/// of the one statement `!!x`.
pub proof fn lemma_double_negation_parses(ts: Seq<TokenView>, x: Expr, end: nat)
    requires
        kind_at(ts, 0) == not_operator(),
        kind_at(ts, 1) == not_operator(),
        kind_at(ts, 2) == TokenKind::Punctuator(Punctuator::OpenParen),
        parse_expression(ts, 3, LOWEST) == Ok::<(Expr, nat), ParseErrorView>((x, end)),
        3 < end,
        punctuator_at_end(ts, end),
    ensures
        parse_program(ts) == Ok::<Seq<Stmt>, ParseErrorView>(seq![twice_negated(x)]),
{
    let once = Expr::Prefix { operator: not_operator(), right: Box::new(x) };
    let twice = Expr::Prefix { operator: not_operator(), right: Box::new(once) };
    let stop = end + 1;
    assert(parse_prefix(ts, 2) == Ok::<(Expr, nat), ParseErrorView>((x, stop)));
    assert(parse_infix_loop(ts, stop, PREFIX, x) == Ok::<(Expr, nat), ParseErrorView>((x, stop)));
    assert(parse_expression(ts, 2, PREFIX) == Ok::<(Expr, nat), ParseErrorView>((x, stop)));
    assert(parse_prefix(ts, 1) == Ok::<(Expr, nat), ParseErrorView>((once, stop)));
    assert(parse_infix_loop(ts, stop, PREFIX, once) == Ok::<(Expr, nat), ParseErrorView>(
        (once, stop),
    ));
    assert(parse_expression(ts, 1, PREFIX) == Ok::<(Expr, nat), ParseErrorView>((once, stop)));
    assert(parse_prefix(ts, 0) == Ok::<(Expr, nat), ParseErrorView>((twice, stop)));
    assert(parse_infix_loop(ts, stop, LOWEST, twice) == Ok::<(Expr, nat), ParseErrorView>(
        (twice, stop),
    ));
    assert(parse_expression(ts, 0, LOWEST) == Ok::<(Expr, nat), ParseErrorView>((twice, stop)));
    let statement = twice_negated(x);
    assert(parse_statement(ts, 0) == Ok::<(Stmt, nat), ParseErrorView>((statement, stop)));
    assert(Seq::<Stmt>::empty().push(statement) =~= seq![statement]);
    assert(parse_statements(ts, stop, seq![statement]) == Ok::<Seq<Stmt>, ParseErrorView>(
        seq![statement],
    ));
    assert(parse_statements(ts, 0, Seq::empty()) == Ok::<Seq<Stmt>, ParseErrorView>(
        seq![statement],
    ));
}

/// The statement `!!x`.
pub open spec fn twice_negated(x: Expr) -> Stmt {
    Stmt::Expression {
        expression: Expr::Prefix {
            operator: not_operator(),
            right: Box::new(Expr::Prefix { operator: not_operator(), right: Box::new(x) }),
        },
    }
}

/// Whether a text is one expression: it has no illegal token, and its
/// tokens parse as the expression `x` up to the end of the input.
pub open spec fn spells_expression(e: Seq<char>, x: Expr) -> bool {
    &&& legal_text(e)
    &&& parse_expression(lex(e), 0, LOWEST) == Ok::<(Expr, nat), ParseErrorView>(
        (x, content(e).len()),
    )
}

/// The words `! ! (`.
pub open spec fn negation_words() -> Seq<Word> {
    seq![bang_word(), bang_word(), opening_word()]
}

/// The text `!!(e)` says `! ! (`, what `e` says, and `)`.
pub proof fn lemma_double_negation_says(e: Seq<char>)
    requires
        legal_text(e),
    ensures
        content(bang() + bang() + opening() + e + closing()) == negation_words() + content(e)
            + seq![closing_word()],
{
    let group = opening() + e + closing();
    lemma_group_says(e);
    lemma_bang_says(group);
    let inner = bang() + group;
    lemma_bang_says(inner);
    let text = bang() + bang() + opening() + e + closing();
    assert(text =~= bang() + inner);
    assert(content(text) =~= negation_words() + content(e) + seq![closing_word()]);
}

/// A text that says `! ! (`, an expression and `)` parses to the double
/// negation of the expression.
pub proof fn lemma_double_negation_of_window(text: Seq<char>, e: Seq<char>, x: Expr)
    requires
        spells_expression(e, x),
        content(text) == negation_words() + content(e) + seq![closing_word()],
    ensures
        parse_source(text) == Ok::<Seq<Stmt>, ParseErrorView>(seq![twice_negated(x)]),
{
    let before = negation_words();
    lemma_window_of_group(text, before, e);
    let ts = lex(text);
    let m = content(e).len();
    crate::parser::laws::law_expression_regular(lex(e), 0, LOWEST);
    assert(m > 0);
    law_expression_in_context(lex(e), 0, ts, 3, m, LOWEST);
    assert(parse_expression(ts, 3, LOWEST) == Ok::<(Expr, nat), ParseErrorView>((x, m + 3)));
    assert(word_of(ts[0]) == before[0]);
    assert(word_of(ts[1]) == before[1]);
    assert(word_of(ts[2]) == before[2]);
    assert(kind_at(ts, 0) == not_operator());
    assert(kind_at(ts, 1) == not_operator());
    assert(kind_at(ts, 2) == TokenKind::Punctuator(Punctuator::OpenParen));
    lemma_double_negation_parses(ts, x, m + 3);
}

/// The text `!!(e)` parses to the double negation of what `e` parses to.
pub proof fn law_double_negation_source_parses(e: Seq<char>, x: Expr)
    requires
        spells_expression(e, x),
    ensures
        parse_source(bang() + bang() + opening() + e + closing()) == Ok::<
            Seq<Stmt>,
            ParseErrorView,
        >(seq![twice_negated(x)]),
{
    lemma_double_negation_says(e);
    lemma_double_negation_of_window(bang() + bang() + opening() + e + closing(), e, x);
}

/// Negating twice in a source text. For every text `e` that is one
/// expression, the text `!!(e)` is a program that yields the truth value of
/// whether the value of `e` counts as true, and leaves the scopes as `e`
/// leaves them; where `e` fails, the program fails in the same way.
pub proof fn law_double_negation_in_source(
    e: Seq<char>,
    x: Expr,
    heap: Seq<Scope>,
    env: nat,
    depth: nat,
)
    requires
        spells_expression(e, x),
    ensures
        ({
            let text = bang() + bang() + opening() + e + closing();
            let program = seq![twice_negated(x)];
            let inner = eval_expr(x, heap, env, depth);
            &&& parse_source(text) == Ok::<Seq<Stmt>, ParseErrorView>(program)
            &&& match inner.result {
                Ok(v) => eval_program(program, heap, env, depth) == (Outcome {
                    result: Ok(Value::Bool(truthy(v))),
                    heap: inner.heap,
                }),
                Err(fault) => eval_program(program, heap, env, depth) == inner,
            }
        }),
{
    law_double_negation_source_parses(e, x);
    law_double_negation_of_expression(x, heap, env, depth);
    let once = Expr::Prefix { operator: not_operator(), right: Box::new(x) };
    let twice = Expr::Prefix { operator: not_operator(), right: Box::new(once) };
    lemma_program_of_one_expression(twice, heap, env, depth);
}

/// The statement `!x`.
pub open spec fn once_negated(x: Expr) -> Stmt {
    Stmt::Expression {
        expression: Expr::Prefix { operator: not_operator(), right: Box::new(x) },
    }
}

/// The words `! (`.
pub open spec fn single_negation_words() -> Seq<Word> {
    seq![bang_word(), opening_word()]
}

/// The text `!(e)` says `! (`, what `e` says, and `)`.
pub proof fn lemma_negation_says(e: Seq<char>)
    requires
        legal_text(e),
    ensures
        content(bang() + opening() + e + closing()) == single_negation_words() + content(e)
            + seq![closing_word()],
{
    let group = opening() + e + closing();
    lemma_group_says(e);
    lemma_bang_says(group);
    let text = bang() + opening() + e + closing();
    assert(text =~= bang() + group);
    assert(content(text) =~= single_negation_words() + content(e) + seq![closing_word()]);
}

/// Tokens that spell `! ( x )` and the end of the input are the program of
/// the one statement `!x`.
pub proof fn lemma_negation_parses(ts: Seq<TokenView>, x: Expr, end: nat)
    requires
        kind_at(ts, 0) == not_operator(),
        kind_at(ts, 1) == TokenKind::Punctuator(Punctuator::OpenParen),
        parse_expression(ts, 2, LOWEST) == Ok::<(Expr, nat), ParseErrorView>((x, end)),
        2 < end,
        punctuator_at_end(ts, end),
    ensures
        parse_program(ts) == Ok::<Seq<Stmt>, ParseErrorView>(seq![once_negated(x)]),
{
    let once = Expr::Prefix { operator: not_operator(), right: Box::new(x) };
    let stop = end + 1;
    assert(parse_prefix(ts, 1) == Ok::<(Expr, nat), ParseErrorView>((x, stop)));
    assert(parse_infix_loop(ts, stop, PREFIX, x) == Ok::<(Expr, nat), ParseErrorView>((x, stop)));
    assert(parse_expression(ts, 1, PREFIX) == Ok::<(Expr, nat), ParseErrorView>((x, stop)));
    assert(parse_prefix(ts, 0) == Ok::<(Expr, nat), ParseErrorView>((once, stop)));
    assert(parse_infix_loop(ts, stop, LOWEST, once) == Ok::<(Expr, nat), ParseErrorView>(
        (once, stop),
    ));
    assert(parse_expression(ts, 0, LOWEST) == Ok::<(Expr, nat), ParseErrorView>((once, stop)));
    let statement = once_negated(x);
    assert(parse_statement(ts, 0) == Ok::<(Stmt, nat), ParseErrorView>((statement, stop)));
    assert(Seq::<Stmt>::empty().push(statement) =~= seq![statement]);
    assert(parse_statements(ts, stop, seq![statement]) == Ok::<Seq<Stmt>, ParseErrorView>(
        seq![statement],
    ));
    assert(parse_statements(ts, 0, Seq::empty()) == Ok::<Seq<Stmt>, ParseErrorView>(
        seq![statement],
    ));
}

/// A text that says `! (`, an expression and `)` parses to the negation of
/// the expression.
pub proof fn lemma_negation_of_window(text: Seq<char>, e: Seq<char>, x: Expr)
    requires
        spells_expression(e, x),
        content(text) == single_negation_words() + content(e) + seq![closing_word()],
    ensures
        parse_source(text) == Ok::<Seq<Stmt>, ParseErrorView>(seq![once_negated(x)]),
{
    let before = single_negation_words();
    lemma_window_of_group(text, before, e);
    let ts = lex(text);
    let m = content(e).len();
    crate::parser::laws::law_expression_regular(lex(e), 0, LOWEST);
    assert(m > 0);
    law_expression_in_context(lex(e), 0, ts, 2, m, LOWEST);
    assert(parse_expression(ts, 2, LOWEST) == Ok::<(Expr, nat), ParseErrorView>((x, m + 2)));
    assert(word_of(ts[0]) == before[0]);
    assert(word_of(ts[1]) == before[1]);
    assert(kind_at(ts, 0) == not_operator());
    assert(kind_at(ts, 1) == TokenKind::Punctuator(Punctuator::OpenParen));
    lemma_negation_parses(ts, x, m + 2);
}

/// Negating in a source text. For every text `e` that is one expression,
/// the text `!(e)` is a program that yields the truth value of whether the
/// value of `e` does not count as true, and leaves the scopes as `e` leaves
/// them; where `e` fails, the program fails in the same way.
pub proof fn law_negation_in_source(
    e: Seq<char>,
    x: Expr,
    heap: Seq<Scope>,
    env: nat,
    depth: nat,
)
    requires
        spells_expression(e, x),
    ensures
        ({
            let text = bang() + opening() + e + closing();
            let program = seq![once_negated(x)];
            let inner = eval_expr(x, heap, env, depth);
            &&& parse_source(text) == Ok::<Seq<Stmt>, ParseErrorView>(program)
            &&& match inner.result {
                Ok(v) => eval_program(program, heap, env, depth) == (Outcome {
                    result: Ok(Value::Bool(!truthy(v))),
                    heap: inner.heap,
                }),
                Err(fault) => eval_program(program, heap, env, depth) == inner,
            }
        }),
{
    lemma_negation_says(e);
    lemma_negation_of_window(bang() + opening() + e + closing(), e, x);
    let once = Expr::Prefix { operator: not_operator(), right: Box::new(x) };
    lemma_program_of_one_expression(once, heap, env, depth);
}

/// Whether a text is a name: a letter or an underscore, then letters,
/// digits and underscores, and no keyword.
pub open spec fn is_name(w: Seq<char>) -> bool {
    &&& w.len() > 0
    &&& is_letter(w[0])
    &&& forall|i: int| 0 <= i < w.len() ==> is_word_char(#[trigger] w[i])
    &&& word_kind(w) == TokenKind::Identifier
}

/// A name alone is the program of the one statement that looks it up.
pub proof fn lemma_name_parses(w: Seq<char>)
    requires
        is_name(w),
    ensures
        parse_source(w) == Ok::<Seq<Stmt>, ParseErrorView>(
            seq![Stmt::Expression { expression: Expr::Identifier(w) }],
        ),
{
    law_content_word(w);
    lemma_words_of_text(w);
    let ts = lex(w);
    let word = Word { kind: TokenKind::Identifier, literal: w };
    assert(content(w)[0] == word);
    assert(word_of(ts[0]) == content(w)[0]);
    let name = Expr::Identifier(w);
    let statement = Stmt::Expression { expression: name };
    assert(parse_prefix(ts, 0) == Ok::<(Expr, nat), ParseErrorView>((name, 1)));
    assert(parse_infix_loop(ts, 1, LOWEST, name) == Ok::<(Expr, nat), ParseErrorView>((name, 1)));
    assert(parse_expression(ts, 0, LOWEST) == Ok::<(Expr, nat), ParseErrorView>((name, 1)));
    assert(parse_statement(ts, 0) == Ok::<(Stmt, nat), ParseErrorView>((statement, 1)));
    assert(Seq::<Stmt>::empty().push(statement) =~= seq![statement]);
    assert(parse_statements(ts, 1, seq![statement]) == Ok::<Seq<Stmt>, ParseErrorView>(
        seq![statement],
    ));
    assert(parse_statements(ts, 0, Seq::empty()) == Ok::<Seq<Stmt>, ParseErrorView>(
        seq![statement],
    ));
}

/// A name in a source text. For every name `w`, the text `w` is a program
/// that yields what the name resolves to from scope `env`, and leaves the
/// scopes as they were; where no scope from `env` outwards binds the name,
/// it fails as not found, and the message reads `identifier not found: `
/// and the name.
pub proof fn law_identifier_in_source(w: Seq<char>, heap: Seq<Scope>, env: nat, depth: nat)
    requires
        is_name(w),
    ensures
        ({
            let program = seq![Stmt::Expression { expression: Expr::Identifier(w) }];
            let fault = Fault::IdentifierNotFound { name: w };
            &&& parse_source(w) == Ok::<Seq<Stmt>, ParseErrorView>(program)
            &&& eval_program(program, heap, env, depth) == (Outcome {
                result: match resolve(heap, env, w) {
                    Some(v) => Ok(strip_returns(v)),
                    None => Err(fault),
                },
                heap,
            })
            &&& fault_message(fault) == "identifier not found: "@ + w
        }),
{
    lemma_name_parses(w);
    lemma_program_of_one_expression(Expr::Identifier(w), heap, env, depth);
}

/// A text that is one expression is the program of that expression as its
/// one statement, and the program yields what the expression yields,
/// without the wrappers of `return`.
pub proof fn law_expression_text_is_program(
    e: Seq<char>,
    x: Expr,
    heap: Seq<Scope>,
    env: nat,
    depth: nat,
)
    requires
        spells_expression(e, x),
    ensures
        parse_source(e) == Ok::<Seq<Stmt>, ParseErrorView>(
            seq![Stmt::Expression { expression: x }],
        ),
        eval_program(seq![Stmt::Expression { expression: x }], heap, env, depth) == leave(
            eval_expr(x, heap, env, depth),
        ),
{
    let ts = lex(e);
    let m = content(e).len();
    lemma_words_of_text(e);
    crate::parser::laws::law_expression_regular(ts, 0, LOWEST);
    assert(parse_prefix(ts, 0) is Ok);
    assert(kind_at(ts, 0) != TokenKind::Keyword(Keyword::Let));
    assert(kind_at(ts, 0) != TokenKind::Keyword(Keyword::Return));
    assert(kind_at(ts, m) == TokenKind::EndOfInput);
    let statement = Stmt::Expression { expression: x };
    assert(parse_statement(ts, 0) == Ok::<(Stmt, nat), ParseErrorView>((statement, m)));
    assert(Seq::<Stmt>::empty().push(statement) =~= seq![statement]);
    assert(parse_statements(ts, m, seq![statement]) == Ok::<Seq<Stmt>, ParseErrorView>(
        seq![statement],
    ));
    assert(parse_statements(ts, 0, Seq::empty()) == Ok::<Seq<Stmt>, ParseErrorView>(
        seq![statement],
    ));
    lemma_program_of_one_expression(x, heap, env, depth);
}

} // verus!
