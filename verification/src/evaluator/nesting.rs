//! A `return` under any depth of nesting, in source text.
//!
//! The text of depth 0 is `return 10;`, and the text of depth `n + 1` is
//! `if (true) { `, the text of depth `n`, and ` return 1; }`. At every
//! depth the text is a program that yields 10: the innermost `return`
//! leaves every block around it, and no `return 1;` runs.

use vstd::prelude::*;
use crate::composition::{
    apart,
    content,
    law_content_concatenation,
    law_content_digits,
    law_content_keyword,
    law_content_padded,
    law_content_punctuator,
    law_content_spaced,
    legal_text,
    lemma_words_of_text,
    word_of,
    Word,
};
use crate::evaluator::semantics::{eval_expr, eval_program, eval_statements, eval_stmt, Outcome};
use crate::evaluator::sources::{closing_word, lemma_group_says, opening_word};
use crate::lexer::lex;
use crate::object::{Scope, Value};
use crate::parser::grammar::{
    kind_at,
    parse_block,
    parse_block_statements,
    parse_expression,
    parse_if,
    parse_infix_loop,
    parse_prefix,
    parse_statement,
    parse_statements,
    punctuator_at,
    token_at,
    ParseErrorView,
};
use crate::parser::node::{Expr, Stmt};
use crate::parser::parse_source;
use crate::text::{digits_value, is_digit, numeral_value};
use crate::token::{keyword_text, precedence_of, Keyword, Punctuator, TokenKind, TokenView, LOWEST};

verus! {

/// The source text of depth `n`.
pub open spec fn nested_text(n: nat) -> Seq<char>
    decreases n,
{
    if n == 0 {
        "return 10;"@
    } else {
        "if (true) { "@ + nested_text((n - 1) as nat) + " return 1; }"@
    }
}

/// The statement `return value;` of an integer.
pub open spec fn return_of(value: i64) -> Stmt {
    Stmt::Return { argument: Some(Expr::Integer(value)) }
}

/// The statement that the text of depth `n` spells.
pub open spec fn nested_statement(n: nat) -> Stmt
    decreases n,
{
    if n == 0 {
        return_of(10)
    } else {
        Stmt::Expression {
            expression: Expr::If {
                condition: Box::new(Expr::Boolean(true)),
                consequence: seq![nested_statement((n - 1) as nat), return_of(1)],
                alternative: None,
            },
        }
    }
}

/// A keyword as a word.
pub open spec fn keyword_word(k: Keyword) -> Word {
    Word { kind: TokenKind::Keyword(k), literal: keyword_text(k) }
}

/// A punctuator of one character as a word.
pub open spec fn punctuator_word(p: Punctuator, c: char) -> Word {
    Word { kind: TokenKind::Punctuator(p), literal: seq![c] }
}

/// The words of `return d;`.
pub open spec fn return_words(d: Seq<char>) -> Seq<Word> {
    seq![
        keyword_word(Keyword::Return),
        Word { kind: TokenKind::Integer, literal: d },
        punctuator_word(Punctuator::Semicolon, ';'),
    ]
}

/// The words of `if (true) {`.
pub open spec fn head_words() -> Seq<Word> {
    seq![
        keyword_word(Keyword::If),
        opening_word(),
        keyword_word(Keyword::True),
        closing_word(),
        punctuator_word(Punctuator::OpenBlock, '{'),
    ]
}

/// The words of `return 1; }`.
pub open spec fn tail_words() -> Seq<Word> {
    return_words("1"@).push(punctuator_word(Punctuator::CloseBlock, '}'))
}

/// The words of the text of depth `n`.
pub open spec fn nested_words(n: nat) -> Seq<Word>
    decreases n,
{
    if n == 0 {
        return_words("10"@)
    } else {
        head_words() + nested_words((n - 1) as nat) + tail_words()
    }
}

/// The text `return d;`.
pub open spec fn return_text(d: Seq<char>) -> Seq<char> {
    keyword_text(Keyword::Return) + seq![' '] + d + seq![';']
}

/// The numerals `10` and `1`.
pub proof fn lemma_numerals()
    ensures
        numeral_value("10"@) == Some(10int),
        numeral_value("1"@) == Some(1int),
        "10"@.len() == 2,
        "1"@.len() == 1,
        forall|i: int| 0 <= i < "10"@.len() ==> is_digit(#[trigger] "10"@[i]),
        forall|i: int| 0 <= i < "1"@.len() ==> is_digit(#[trigger] "1"@[i]),
{
    reveal_strlit("10");
    reveal_strlit("1");
    let ten = "10"@;
    let one = "1"@;
    assert(one.drop_last() =~= Seq::<char>::empty());
    assert(digits_value(one.drop_last()) == 0);
    assert(digits_value(one) == 1);
    assert(ten.drop_last() =~= one);
    assert(digits_value(ten) == 10);
    assert(ten[0] == '1' && ten[1] == '0');
    assert(one[0] == '1');
}

/// The text `return d;` says `return`, the integer and the semicolon.
pub proof fn lemma_return_says(d: Seq<char>)
    requires
        d.len() > 0,
        forall|i: int| 0 <= i < d.len() ==> is_digit(#[trigger] d[i]),
    ensures
        content(return_text(d)) == return_words(d),
        legal_text(return_text(d)),
        return_text(d).len() > 0,
        return_text(d).last() == ';',
{
    law_content_keyword(Keyword::Return);
    law_content_digits(d);
    law_content_punctuator(';');
    let end = seq![';'];
    assert(end[0] == ';');
    assert(is_digit(d.last()));
    assert(apart(d, end));
    law_content_concatenation(d, end);
    let tail = d + end;
    law_content_spaced(keyword_text(Keyword::Return), tail);
    assert(return_text(d) =~= keyword_text(Keyword::Return) + seq![' '] + tail);
    assert(content(return_text(d)) =~= return_words(d));
}

/// The text `if (true) { ` says its five words and ends in a blank.
pub proof fn lemma_head_says()
    ensures
        content("if (true) { "@) == head_words(),
        legal_text("if (true) { "@),
        "if (true) { "@.len() > 0,
        "if (true) { "@.last() == ' ',
{
    reveal_strlit("if (true) { ");
    reveal_strlit("if");
    reveal_strlit("true");
    law_content_keyword(Keyword::If);
    law_content_keyword(Keyword::True);
    law_content_punctuator('{');
    let truth = keyword_text(Keyword::True);
    lemma_group_says(truth);
    let group = seq!['('] + truth + seq![')'];
    law_content_spaced(keyword_text(Keyword::If), group);
    let first = keyword_text(Keyword::If) + seq![' '] + group;
    law_content_spaced(first, seq!['{']);
    let second = first + seq![' '] + seq!['{'];
    law_content_padded(second);
    let text = "if (true) { "@;
    assert(text =~= second + seq![' ']);
    assert(content(text) =~= head_words());
}

/// The text ` return 1; }` says its four words and starts with a blank.
pub proof fn lemma_tail_says()
    ensures
        content(" return 1; }"@) == tail_words(),
        legal_text(" return 1; }"@),
        " return 1; }"@.len() > 0,
        " return 1; }"@[0] == ' ',
{
    reveal_strlit(" return 1; }");
    reveal_strlit("return");
    reveal_strlit("1");
    lemma_numerals();
    lemma_return_says("1"@);
    law_content_punctuator('}');
    law_content_spaced(return_text("1"@), seq!['}']);
    let body = return_text("1"@) + seq![' '] + seq!['}'];
    law_content_padded(body);
    let text = " return 1; }"@;
    assert(text =~= seq![' '] + body);
    assert(content(text) =~= tail_words());
}

/// The text of depth `n` says the words of depth `n`.
pub proof fn lemma_nested_says(n: nat)
    ensures
        content(nested_text(n)) == nested_words(n),
        legal_text(nested_text(n)),
        nested_text(n).len() > 0,
    decreases n,
{
    if n == 0 {
        reveal_strlit("return 10;");
        reveal_strlit("return");
        reveal_strlit("10");
        lemma_numerals();
        lemma_return_says("10"@);
        assert("return 10;"@ =~= return_text("10"@));
    } else {
        let inner = nested_text((n - 1) as nat);
        lemma_nested_says((n - 1) as nat);
        lemma_head_says();
        lemma_tail_says();
        let head = "if (true) { "@;
        let tail = " return 1; }"@;
        assert(apart(inner, tail));
        law_content_concatenation(inner, tail);
        let rest = inner + tail;
        assert(rest[0] == inner[0]);
        assert(apart(head, rest));
        law_content_concatenation(head, rest);
        assert(nested_text(n) =~= head + rest);
        assert(content(nested_text(n)) =~= nested_words(n));
    }
}

/// Whether the tokens from `pos` on are the given words.
#[verifier::opaque]
pub open spec fn spells_at(ts: Seq<TokenView>, pos: nat, ws: Seq<Word>) -> bool {
    &&& pos + ws.len() <= ts.len()
    &&& forall|i: int| pos <= i < pos + ws.len() ==> word_of(#[trigger] ts[i]) == ws[i - pos]
}

/// Tokens that are words followed by words are the first words and, behind
/// them, the second.
pub proof fn lemma_spells_parts(ts: Seq<TokenView>, pos: nat, x: Seq<Word>, y: Seq<Word>)
    requires
        spells_at(ts, pos, x + y),
    ensures
        spells_at(ts, pos, x),
        spells_at(ts, pos + x.len(), y),
{
    reveal(spells_at);
    let all = x + y;
    assert forall|i: int| pos <= i < pos + x.len() implies word_of(#[trigger] ts[i]) == x[i
        - pos] by {
        assert(all[i - pos] == x[i - pos]);
    }
    assert forall|i: int| pos + x.len() <= i < pos + x.len() + y.len() implies word_of(
        #[trigger] ts[i],
    ) == y[i - (pos + x.len())] by {
        assert(all[i - pos] == y[i - pos - x.len()]);
    }
}

/// The kind and the text of the token at a place of spelled words.
pub proof fn lemma_spelled_token(ts: Seq<TokenView>, pos: nat, ws: Seq<Word>, i: nat)
    requires
        spells_at(ts, pos, ws),
        i < ws.len(),
    ensures
        token_at(ts, pos + i).kind == ws[i as int].kind,
        token_at(ts, pos + i).literal == ws[i as int].literal,
        kind_at(ts, pos + i) == ws[i as int].kind,
        pos + i < ts.len(),
{
    reveal(spells_at);
    assert(word_of(ts[(pos + i) as int]) == ws[(pos + i) as int - pos]);
}

/// Tokens that spell `return d;` are the statement that returns the
/// integer of the numeral.
pub proof fn lemma_return_parses(ts: Seq<TokenView>, pos: nat, d: Seq<char>, value: int)
    requires
        spells_at(ts, pos, return_words(d)),
        numeral_value(d) == Some(value),
    ensures
        parse_statement(ts, pos) == Ok::<(Stmt, nat), ParseErrorView>(
            (return_of(value as i64), pos + 3),
        ),
{
    let ws = return_words(d);
    lemma_spelled_token(ts, pos, ws, 0);
    lemma_spelled_token(ts, pos, ws, 1);
    lemma_spelled_token(ts, pos, ws, 2);
    let number = Expr::Integer(value as i64);
    assert(parse_prefix(ts, pos + 1) == Ok::<(Expr, nat), ParseErrorView>((number, pos + 2)));
    assert(parse_infix_loop(ts, pos + 2, LOWEST, number) == Ok::<(Expr, nat), ParseErrorView>(
        (number, pos + 2),
    ));
    assert(parse_expression(ts, pos + 1, LOWEST) == Ok::<(Expr, nat), ParseErrorView>(
        (number, pos + 2),
    ));
}

/// Whether a token kind ends a statement quietly: it binds nothing and is
/// neither `else` nor a semicolon.
pub open spec fn quiet(kind: TokenKind) -> bool {
    precedence_of(kind) == LOWEST && kind != TokenKind::Keyword(Keyword::Else) && kind
        != TokenKind::Punctuator(Punctuator::Semicolon)
}

/// Tokens that spell `return 1; }` are the statement that returns 1 and a
/// closing brace behind it.
pub proof fn lemma_tail_parses(ts: Seq<TokenView>, mid: nat)
    requires
        spells_at(ts, mid, tail_words()),
    ensures
        parse_statement(ts, mid) == Ok::<(Stmt, nat), ParseErrorView>((return_of(1), mid + 3)),
        punctuator_at(ts, mid + 3, Punctuator::CloseBlock),
        kind_at(ts, mid) == TokenKind::Keyword(Keyword::Return),
        mid + 4 <= ts.len(),
{
    lemma_numerals();
    assert(tail_words() =~= return_words("1"@) + seq![
        punctuator_word(Punctuator::CloseBlock, '}'),
    ]);
    lemma_spells_parts(
        ts,
        mid,
        return_words("1"@),
        seq![punctuator_word(Punctuator::CloseBlock, '}')],
    );
    lemma_return_parses(ts, mid, "1"@, 1);
    lemma_spelled_token(ts, mid, tail_words(), 0);
    lemma_spelled_token(ts, mid, tail_words(), 3);
}

/// A statement at `pos` and `return 1; }` behind it are the two statements
/// of a block that ends behind the brace.
pub proof fn lemma_block_of_two(ts: Seq<TokenView>, pos: nat, inner: Stmt, mid: nat)
    requires
        kind_at(ts, pos) != TokenKind::Punctuator(Punctuator::CloseBlock),
        kind_at(ts, pos) != TokenKind::EndOfInput,
        parse_statement(ts, pos) == Ok::<(Stmt, nat), ParseErrorView>((inner, mid)),
        pos < mid,
        parse_statement(ts, mid) == Ok::<(Stmt, nat), ParseErrorView>((return_of(1), mid + 3)),
        kind_at(ts, mid) == TokenKind::Keyword(Keyword::Return),
        punctuator_at(ts, mid + 3, Punctuator::CloseBlock),
        mid + 4 <= ts.len(),
    ensures
        parse_block_statements(ts, pos, Seq::empty()) == Ok::<(Seq<Stmt>, nat), ParseErrorView>(
            (seq![inner, return_of(1)], mid + 4),
        ),
{
    let one = seq![inner];
    let two = seq![inner, return_of(1)];
    assert(Seq::<Stmt>::empty().push(inner) =~= one);
    assert(one.push(return_of(1)) =~= two);
    assert(parse_block_statements(ts, mid + 3, two) == Ok::<(Seq<Stmt>, nat), ParseErrorView>(
        (two, mid + 4),
    ));
    assert(parse_block_statements(ts, mid, one) == Ok::<(Seq<Stmt>, nat), ParseErrorView>(
        (two, mid + 4),
    ));
}

/// Whether the tokens from `pos` on are `if ( true ) {`.
pub open spec fn head_at(ts: Seq<TokenView>, pos: nat) -> bool {
    &&& kind_at(ts, pos) == TokenKind::Keyword(Keyword::If)
    &&& punctuator_at(ts, pos + 1, Punctuator::OpenParen)
    &&& kind_at(ts, pos + 2) == TokenKind::Keyword(Keyword::True)
    &&& punctuator_at(ts, pos + 3, Punctuator::CloseParen)
    &&& punctuator_at(ts, pos + 4, Punctuator::OpenBlock)
    &&& pos + 5 <= ts.len()
}

/// Tokens that spell the words of `if (true) {` are those tokens.
pub proof fn lemma_head_tokens(ts: Seq<TokenView>, pos: nat)
    requires
        spells_at(ts, pos, head_words()),
    ensures
        head_at(ts, pos),
{
    let hs = head_words();
    lemma_spelled_token(ts, pos, hs, 0);
    lemma_spelled_token(ts, pos, hs, 1);
    lemma_spelled_token(ts, pos, hs, 2);
    lemma_spelled_token(ts, pos, hs, 3);
    lemma_spelled_token(ts, pos, hs, 4);
}

/// The condition `true` in parentheses behind `if`.
pub proof fn lemma_condition_parses(ts: Seq<TokenView>, pos: nat)
    requires
        head_at(ts, pos),
    ensures
        parse_expression(ts, pos + 2, LOWEST) == Ok::<(Expr, nat), ParseErrorView>(
            (Expr::Boolean(true), pos + 3),
        ),
{
    let truth = Expr::Boolean(true);
    assert(parse_prefix(ts, pos + 2) == Ok::<(Expr, nat), ParseErrorView>((truth, pos + 3)));
    assert(parse_infix_loop(ts, pos + 3, LOWEST, truth) == Ok::<(Expr, nat), ParseErrorView>(
        (truth, pos + 3),
    ));
}

/// Tokens that are `if ( true ) {` and a block of statements that ends at
/// `end`, with a quiet token behind it, are the statement of the
/// conditional.
pub proof fn lemma_wrapped_parses(ts: Seq<TokenView>, pos: nat, body: Seq<Stmt>, end: nat)
    requires
        head_at(ts, pos),
        parse_block_statements(ts, pos + 5, Seq::empty()) == Ok::<
            (Seq<Stmt>, nat),
            ParseErrorView,
        >((body, end)),
        pos + 5 < end <= ts.len(),
        quiet(kind_at(ts, end)),
    ensures
        parse_statement(ts, pos) == Ok::<(Stmt, nat), ParseErrorView>(
            (
                Stmt::Expression {
                    expression: Expr::If {
                        condition: Box::new(Expr::Boolean(true)),
                        consequence: body,
                        alternative: None,
                    },
                },
                end,
            ),
        ),
{
    let truth = Expr::Boolean(true);
    let whole = Expr::If { condition: Box::new(truth), consequence: body, alternative: None };
    lemma_condition_parses(ts, pos);
    assert(parse_block(ts, pos + 4) == Ok::<(Seq<Stmt>, nat), ParseErrorView>((body, end)));
    assert(parse_if(ts, pos) == Ok::<(Expr, nat), ParseErrorView>((whole, end)));
    assert(parse_prefix(ts, pos) == Ok::<(Expr, nat), ParseErrorView>((whole, end)));
    assert(parse_infix_loop(ts, end, LOWEST, whole) == Ok::<(Expr, nat), ParseErrorView>(
        (whole, end),
    ));
    assert(parse_expression(ts, pos, LOWEST) == Ok::<(Expr, nat), ParseErrorView>((whole, end)));
}

/// The first word of the text of any depth is `if` or `return`.
pub proof fn lemma_first_word(n: nat)
    ensures
        nested_words(n).len() >= 3,
        nested_words(n)[0].kind == TokenKind::Keyword(Keyword::If) || nested_words(n)[0].kind
            == TokenKind::Keyword(Keyword::Return),
    decreases n,
{
    if n > 0 {
        lemma_first_word((n - 1) as nat);
        assert(nested_words(n)[0] == head_words()[0]);
    }
}

/// Tokens that spell the words of a depth above 0 are `if ( true ) {`,
/// the words of the depth below, and `return 1; }`.
pub proof fn lemma_nested_parts(n: nat, ts: Seq<TokenView>, pos: nat)
    requires
        n > 0,
        spells_at(ts, pos, nested_words(n)),
    ensures
        nested_words(n).len() == nested_words((n - 1) as nat).len() + 9,
        head_at(ts, pos),
        spells_at(ts, pos + 5, nested_words((n - 1) as nat)),
        spells_at(ts, pos + 5 + nested_words((n - 1) as nat).len(), tail_words()),
{
    let inner = nested_words((n - 1) as nat);
    let front = head_words() + inner;
    assert(nested_words(n) =~= front + tail_words());
    lemma_spells_parts(ts, pos, front, tail_words());
    lemma_spells_parts(ts, pos, head_words(), inner);
    lemma_head_tokens(ts, pos);
}

/// The statement of a depth above 0 is the conditional around the
/// statement of the depth below.
pub proof fn lemma_nested_statement(n: nat)
    requires
        n > 0,
    ensures
        nested_statement(n) == (Stmt::Expression {
            expression: Expr::If {
                condition: Box::new(Expr::Boolean(true)),
                consequence: seq![nested_statement((n - 1) as nat), return_of(1)],
                alternative: None,
            },
        }),
{
}

/// Tokens that spell `return 10;` are the statement of depth 0.
pub proof fn lemma_base_parses(ts: Seq<TokenView>, pos: nat)
    requires
        spells_at(ts, pos, nested_words(0)),
    ensures
        parse_statement(ts, pos) == Ok::<(Stmt, nat), ParseErrorView>(
            (nested_statement(0), pos + nested_words(0).len()),
        ),
{
    lemma_numerals();
    lemma_return_parses(ts, pos, "10"@, 10);
}

/// The block of a depth above 0: the statement of the depth below and
/// `return 1;`, up to behind the closing brace.
pub proof fn lemma_nested_block(n: nat, ts: Seq<TokenView>, pos: nat)
    requires
        n > 0,
        spells_at(ts, pos, nested_words(n)),
        parse_statement(ts, pos + 5) == Ok::<(Stmt, nat), ParseErrorView>(
            (nested_statement((n - 1) as nat), pos + 5 + nested_words((n - 1) as nat).len()),
        ),
    ensures
        head_at(ts, pos),
        parse_block_statements(ts, pos + 5, Seq::empty()) == Ok::<
            (Seq<Stmt>, nat),
            ParseErrorView,
        >((seq![nested_statement((n - 1) as nat), return_of(1)], pos + nested_words(n).len())),
        pos + nested_words(n).len() <= ts.len(),
        nested_words(n).len() > 5,
{
    let below = (n - 1) as nat;
    let mid = pos + 5 + nested_words(below).len();
    lemma_nested_parts(n, ts, pos);
    lemma_tail_parses(ts, mid);
    lemma_first_word(below);
    lemma_spelled_token(ts, pos + 5, nested_words(below), 0);
    lemma_block_of_two(ts, pos + 5, nested_statement(below), mid);
}

/// Tokens that spell the words of depth `n`, with a quiet token behind
/// them, are the statement of depth `n`, wherever they stand.
pub proof fn lemma_nested_parses(n: nat, ts: Seq<TokenView>, pos: nat)
    requires
        spells_at(ts, pos, nested_words(n)),
        quiet(kind_at(ts, pos + nested_words(n).len())),
    ensures
        parse_statement(ts, pos) == Ok::<(Stmt, nat), ParseErrorView>(
            (nested_statement(n), pos + nested_words(n).len()),
        ),
    decreases n,
{
    if n == 0 {
        lemma_base_parses(ts, pos);
    } else {
        let below = (n - 1) as nat;
        let mid = pos + 5 + nested_words(below).len();
        assert(spells_at(ts, pos + 5, nested_words(below)) && quiet(kind_at(ts, mid))) by {
            lemma_nested_parts(n, ts, pos);
            lemma_tail_parses(ts, mid);
        }
        lemma_nested_parses(below, ts, pos + 5);
        lemma_nested_block(n, ts, pos);
        lemma_wrapped_parses(
            ts,
            pos,
            seq![nested_statement(below), return_of(1)],
            pos + nested_words(n).len(),
        );
        lemma_nested_statement(n);
    }
}

/// The statement of depth `n` yields the wrapped value 10 and leaves the
/// scopes as they were.
pub proof fn lemma_nested_evaluates(n: nat, heap: Seq<Scope>, env: nat, depth: nat)
    ensures
        eval_stmt(nested_statement(n), heap, env, depth) == (Outcome {
            result: Ok(Value::Return(Box::new(Value::Int(10)))),
            heap,
        }),
    decreases n,
{
    if n == 0 {
        assert(eval_expr(Expr::Integer(10), heap, env, depth) == (Outcome {
            result: Ok(Value::Int(10)),
            heap,
        }));
    } else {
        let inner = nested_statement((n - 1) as nat);
        lemma_nested_evaluates((n - 1) as nat, heap, env, depth);
        let body = seq![inner, return_of(1)];
        assert(body[0] == inner);
        assert(eval_statements(body, 0, Value::Null, heap, env, depth) == eval_stmt(
            inner,
            heap,
            env,
            depth,
        ));
        let whole = Expr::If {
            condition: Box::new(Expr::Boolean(true)),
            consequence: body,
            alternative: None,
        };
        assert(eval_expr(Expr::Boolean(true), heap, env, depth) == (Outcome {
            result: Ok(Value::Bool(true)),
            heap,
        }));
        assert(eval_expr(whole, heap, env, depth) == eval_statements(
            body,
            0,
            Value::Null,
            heap,
            env,
            depth,
        ));
    }
}

/// A `return` under any depth of nesting. At every depth `n`, the text of
/// depth `n` is the program of one statement, and the program yields the
/// integer 10, the value of the innermost `return` without its wrapper, and
/// leaves the scopes as they were.
pub proof fn law_nested_return_in_source(n: nat, heap: Seq<Scope>, env: nat, depth: nat)
    ensures
        parse_source(nested_text(n)) == Ok::<Seq<Stmt>, ParseErrorView>(
            seq![nested_statement(n)],
        ),
        eval_program(seq![nested_statement(n)], heap, env, depth) == (Outcome {
            result: Ok(Value::Int(10)),
            heap,
        }),
{
    lemma_nested_source_parses(n);
    lemma_nested_evaluates(n, heap, env, depth);
    let program = seq![nested_statement(n)];
    assert(program[0] == nested_statement(n));
    reveal_with_fuel(crate::evaluator::semantics::strip_returns, 2);
}

/// The text of depth `n` parses to the statement of depth `n`.
pub proof fn lemma_nested_source_parses(n: nat)
    ensures
        parse_source(nested_text(n)) == Ok::<Seq<Stmt>, ParseErrorView>(
            seq![nested_statement(n)],
        ),
{
    let text = nested_text(n);
    let ws = nested_words(n);
    lemma_nested_says(n);
    lemma_words_of_text(text);
    let ts = lex(text);
    assert(spells_at(ts, 0, ws)) by {
        reveal(spells_at);
        assert forall|i: int| 0 <= i < 0 + ws.len() implies word_of(#[trigger] ts[i]) == ws[i
            - 0] by {
            assert(word_of(ts[i]) == content(text)[i]);
        }
    }
    lemma_first_word(n);
    lemma_spelled_token(ts, 0, ws, 0);
    lemma_nested_parses(n, ts, 0);
    let statement = nested_statement(n);
    let end = ws.len();
    assert(Seq::<Stmt>::empty().push(statement) =~= seq![statement]);
    assert(parse_statements(ts, end, seq![statement]) == Ok::<Seq<Stmt>, ParseErrorView>(
        seq![statement],
    ));
    assert(parse_statements(ts, 0, Seq::empty()) == Ok::<Seq<Stmt>, ParseErrorView>(
        seq![statement],
    ));
}

} // verus!
