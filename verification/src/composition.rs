//! The tokens of a text that is put together from parts.
//!
//! The lexer reads a part as it reads it alone, wherever the part stands,
//! as long as no token of the part runs on into what follows it.

use vstd::prelude::*;
use crate::lexer::{
    in_class,
    is_letter,
    is_space,
    law_tokens_end,
    lemma_run_end_bounds,
    lemma_scan_advances,
    lex,
    run_end,
    scan,
    single_punctuator,
    tokens_from,
    word_kind,
    CharClass,
};
use crate::text::is_digit;
use crate::token::{keyword_text, Keyword, Punctuator, TokenKind, TokenView};

verus! {

/// A token moved `by` characters to the right.
pub open spec fn moved(token: TokenView, by: nat) -> TokenView {
    TokenView { kind: token.kind, literal: token.literal, position: token.position + by }
}

/// Tokens moved `by` characters to the right.
pub open spec fn shifted(ts: Seq<TokenView>, by: nat) -> Seq<TokenView> {
    Seq::new(ts.len(), |i: int| moved(ts[i], by))
}

/// Whether no token is illegal.
pub open spec fn legal(ts: Seq<TokenView>) -> bool {
    forall|i: int| 0 <= i < ts.len() ==> (#[trigger] ts[i]).kind != TokenKind::Illegal
}

/// Whether `c` may stand in a word: a letter, a digit or the underscore.
pub open spec fn is_word_char(c: char) -> bool {
    is_letter(c) || is_digit(c)
}

/// Whether a token that ends in `a` could run on into a text that starts
/// with `b`: a word or a number into a letter or a digit, and `=` or `!`
/// into `=`.
pub open spec fn joins(a: char, b: char) -> bool {
    (is_word_char(a) && is_word_char(b)) || ((a == '=' || a == '!') && b == '=')
}

/// Whether no token of the text `a` can run on into the text `b` that
/// follows it.
pub open spec fn apart(a: Seq<char>, b: Seq<char>) -> bool {
    a.len() == 0 || b.len() == 0 || !joins(a.last(), b[0])
}

/// A run within a part ends where it ends in the part alone, unless it
/// reaches the end of the part and what follows belongs to the class.
pub proof fn lemma_run_in_context(
    p: Seq<char>,
    e: Seq<char>,
    q: Seq<char>,
    from: nat,
    class: CharClass,
)
    requires
        from <= e.len(),
        run_end(e, from, class) < e.len() || q.len() == 0 || !in_class(class, q[0]),
    ensures
        run_end(p + e + q, p.len() + from, class) == p.len() + run_end(e, from, class),
    decreases e.len() - from,
{
    let s = p + e + q;
    if from < e.len() {
        assert(s[(p.len() + from) as int] == e[from as int]);
        if in_class(class, e[from as int]) {
            lemma_run_in_context(p, e, q, from + 1, class);
        }
    } else {
        if q.len() > 0 {
            assert(s[(p.len() + from) as int] == q[0]);
        }
    }
}

/// Where only white space is left of a part, the white space is skipped
/// as from the end of the part.
pub proof fn lemma_space_to_the_end(p: Seq<char>, e: Seq<char>, q: Seq<char>, from: nat)
    requires
        from <= e.len(),
        run_end(e, from, CharClass::Space) >= e.len(),
    ensures
        run_end(p + e + q, p.len() + from, CharClass::Space) == run_end(
            p + e + q,
            p.len() + e.len(),
            CharClass::Space,
        ),
    decreases e.len() - from,
{
    let s = p + e + q;
    if from < e.len() {
        assert(s[(p.len() + from) as int] == e[from as int]);
        lemma_space_to_the_end(p, e, q, from + 1);
    }
}

/// A token of a part is read in the whole text as in the part alone,
/// `p.len()` characters further to the right.
pub proof fn lemma_scan_in_context(p: Seq<char>, e: Seq<char>, q: Seq<char>, k: nat)
    requires
        k <= e.len(),
        scan(e, k).0.kind != TokenKind::EndOfInput,
        scan(e, k).0.kind != TokenKind::Illegal,
        apart(e, q),
    ensures
        scan(p + e + q, p.len() + k) == (moved(scan(e, k).0, p.len()), scan(e, k).1 + p.len()),
{
    let s = p + e + q;
    let off = p.len();
    let start = run_end(e, k, CharClass::Space);
    lemma_run_end_bounds(e, k, CharClass::Space);
    assert(start < e.len());
    lemma_run_in_context(p, e, q, k, CharClass::Space);
    let c = e[start as int];
    assert(s[(off + start) as int] == c);
    lemma_run_end_bounds(e, start, CharClass::Word);
    lemma_run_end_bounds(e, start, CharClass::Digit);
    lemma_run_end_bounds(e, start + 1, CharClass::Quoted);
    if is_letter(c) {
        let end = run_end(e, start, CharClass::Word);
        if end == e.len() && q.len() > 0 {
            assert(in_class(CharClass::Word, e[e.len() - 1]));
        }
        lemma_run_in_context(p, e, q, start, CharClass::Word);
        assert(s.subrange((off + start) as int, (off + end) as int) =~= e.subrange(start as int, end as int));
    } else if is_digit(c) {
        let end = run_end(e, start, CharClass::Digit);
        if end == e.len() && q.len() > 0 {
            assert(in_class(CharClass::Digit, e[e.len() - 1]));
        }
        lemma_run_in_context(p, e, q, start, CharClass::Digit);
        assert(s.subrange((off + start) as int, (off + end) as int) =~= e.subrange(start as int, end as int));
    } else if c == '"' {
        let close = run_end(e, start + 1, CharClass::Quoted);
        assert(close < e.len());
        lemma_run_in_context(p, e, q, start + 1, CharClass::Quoted);
        assert(s.subrange((off + start + 1) as int, (off + close) as int) =~= e.subrange(
            start as int + 1,
            close as int,
        ));
    } else if (c == '=' || c == '!') && start + 1 < e.len() && e[start as int + 1] == '=' {
        assert(s[(off + start + 1) as int] == e[start as int + 1]);
        assert(s.subrange((off + start) as int, (off + start + 2) as int) =~= e.subrange(
            start as int,
            start as int + 2,
        ));
    } else {
        if start + 1 < e.len() {
            assert(s[(off + start + 1) as int] == e[start as int + 1]);
        } else if q.len() > 0 {
            assert(s[(off + start + 1) as int] == q[0]);
            assert(e.last() == c);
        }
        assert(s.subrange((off + start) as int, (off + start + 1) as int) =~= e.subrange(
            start as int,
            start as int + 1,
        ));
    }
}

/// The tokens of a part within a text: those of the part alone but for its
/// end-of-input token, moved to where the part stands, and behind them the
/// tokens of what follows the part.
pub proof fn lemma_tokens_in_context(p: Seq<char>, e: Seq<char>, q: Seq<char>, k: nat)
    requires
        k <= e.len(),
        legal(tokens_from(e, k)),
        apart(e, q),
    ensures
        tokens_from(p + e + q, p.len() + k) == shifted(tokens_from(e, k).drop_last(), p.len())
            + tokens_from(p + e + q, p.len() + e.len()),
    decreases e.len() - k,
{
    let s = p + e + q;
    let off = p.len();
    let (token, next) = scan(e, k);
    let here = tokens_from(e, k);
    lemma_run_end_bounds(e, k, CharClass::Space);
    if token.kind == TokenKind::EndOfInput {
        lemma_space_to_the_end(p, e, q, k);
        assert(scan(s, off + k) == scan(s, off + e.len()));
        assert(tokens_from(s, off + k) == tokens_from(s, off + e.len()));
        assert(here.drop_last() =~= Seq::<TokenView>::empty());
        assert(shifted(here.drop_last(), off) =~= Seq::<TokenView>::empty());
        assert(tokens_from(s, off + k) =~= shifted(here.drop_last(), off) + tokens_from(
            s,
            off + e.len(),
        ));
    } else {
        lemma_scan_advances(e, k);
        let rest = tokens_from(e, next);
        assert(here == seq![token] + rest);
        assert(here[0] == token);
        assert(token.kind != TokenKind::Illegal);
        assert forall|i: int| 0 <= i < rest.len() implies (#[trigger] rest[i]).kind
            != TokenKind::Illegal by {
            assert(here[i + 1] == rest[i]);
        }
        lemma_scan_in_context(p, e, q, k);
        lemma_tokens_in_context(p, e, q, next);
        law_tokens_end(e, next);
        assert(here.drop_last() =~= seq![token] + rest.drop_last());
        assert(shifted(here.drop_last(), off) =~= seq![moved(token, off)] + shifted(
            rest.drop_last(),
            off,
        ));
        assert(tokens_from(s, off + k) == seq![moved(token, off)] + tokens_from(s, off + next));
        assert(tokens_from(s, off + k) =~= shifted(here.drop_last(), off) + tokens_from(
            s,
            off + e.len(),
        ));
    }
}

/// The tokens of the last part of a text are those of the part alone,
/// moved to where the part stands.
pub proof fn lemma_tokens_of_last_part(p: Seq<char>, e: Seq<char>)
    requires
        legal(lex(e)),
    ensures
        tokens_from(p + e, p.len()) == shifted(lex(e), p.len()),
{
    let none = Seq::<char>::empty();
    let s = p + e + none;
    assert(s =~= p + e);
    lemma_tokens_in_context(p, e, none, 0);
    law_tokens_end(e, 0);
    let alone = lex(e);
    let last = alone.last();
    lemma_end_token(e, 0);
    lemma_end_token(s, s.len());
    assert(tokens_from(s, s.len()) =~= seq![moved(last, p.len())]);
    assert(alone =~= alone.drop_last().push(last));
    assert(shifted(alone, p.len()) =~= shifted(alone.drop_last(), p.len()) + seq![
        moved(last, p.len()),
    ]);
}

/// The last token of a text stands at the end of the text and has no
/// literal.
pub proof fn lemma_end_token(s: Seq<char>, k: nat)
    requires
        k <= s.len(),
    ensures
        tokens_from(s, k).last() == (TokenView {
            kind: TokenKind::EndOfInput,
            literal: Seq::empty(),
            position: s.len(),
        }),
        k == s.len() ==> tokens_from(s, k) == seq![
            TokenView { kind: TokenKind::EndOfInput, literal: Seq::empty(), position: s.len() },
        ],
    decreases s.len() - k,
{
    let (token, next) = scan(s, k);
    lemma_run_end_bounds(s, k, CharClass::Space);
    if token.kind != TokenKind::EndOfInput {
        lemma_scan_advances(s, k);
        lemma_end_token(s, next);
        law_tokens_end(s, next);
        assert(tokens_from(s, k) == seq![token] + tokens_from(s, next));
        assert(tokens_from(s, k).last() == tokens_from(s, next).last());
    }
}

/// Moved tokens are as legal as they were.
pub proof fn lemma_shifted_legal(ts: Seq<TokenView>, by: nat)
    requires
        legal(ts),
    ensures
        legal(shifted(ts, by)),
{
    assert forall|i: int| 0 <= i < shifted(ts, by).len() implies (#[trigger] shifted(
        ts,
        by,
    )[i]).kind != TokenKind::Illegal by {
        assert(ts[i].kind != TokenKind::Illegal);
    }
}

/// Texts lex part by part. The tokens of a text followed by another, where
/// no token of the first can run on into the second, are the tokens of the
/// first but for its end-of-input token, followed by the tokens of the
/// second, moved behind the first.
pub proof fn law_lex_concatenation(a: Seq<char>, b: Seq<char>)
    requires
        legal(lex(a)),
        legal(lex(b)),
        apart(a, b),
    ensures
        lex(a + b) == lex(a).drop_last() + shifted(lex(b), a.len()),
        legal(lex(a + b)),
{
    let none = Seq::<char>::empty();
    assert(none + a + b =~= a + b);
    lemma_tokens_in_context(none, a, b, 0);
    lemma_tokens_of_last_part(a, b);
    law_tokens_end(a, 0);
    lemma_shifted_legal(lex(b), a.len());
    let first = lex(a).drop_last();
    assert(shifted(first, 0) =~= first);
    let all = first + shifted(lex(b), a.len());
    assert forall|i: int| 0 <= i < all.len() implies (#[trigger] all[i]).kind
        != TokenKind::Illegal by {
        if i < first.len() {
            assert(all[i] == lex(a)[i]);
        } else {
            assert(all[i] == shifted(lex(b), a.len())[i - first.len()]);
        }
    }
}

/// White space before a text changes nothing but the positions: the tokens
/// of a blank followed by a text are the tokens of the text, moved by one.
pub proof fn law_lex_after_blank(b: Seq<char>)
    requires
        legal(lex(b)),
    ensures
        lex(seq![' '] + b) == shifted(lex(b), 1),
        legal(lex(seq![' '] + b)),
{
    let blank = seq![' '];
    let s = blank + b;
    lemma_tokens_of_last_part(blank, b);
    assert(s[0] == ' ');
    assert(is_space(s[0]));
    assert(run_end(s, 0, CharClass::Space) == run_end(s, 1, CharClass::Space));
    assert(scan(s, 0) == scan(s, 1));
    assert(tokens_from(s, 0) == tokens_from(s, 1));
    lemma_shifted_legal(lex(b), 1);
}

/// Texts separated by a blank lex independently: the tokens are those of
/// the first text but for its end-of-input token, followed by those of the
/// second, moved behind the first and the blank.
pub proof fn law_lex_spaced(a: Seq<char>, b: Seq<char>)
    requires
        legal(lex(a)),
        legal(lex(b)),
    ensures
        lex(a + seq![' '] + b) == lex(a).drop_last() + shifted(lex(b), a.len() + 1),
        legal(lex(a + seq![' '] + b)),
{
    let tail = seq![' '] + b;
    law_lex_after_blank(b);
    assert(tail[0] == ' ');
    assert(apart(a, tail));
    law_lex_concatenation(a, tail);
    assert(a + seq![' '] + b =~= a + tail);
    assert(shifted(shifted(lex(b), 1), a.len()) =~= shifted(lex(b), a.len() + 1));
}

/// A token without its position: its kind and its text.
pub struct Word {
    pub kind: TokenKind,
    pub literal: Seq<char>,
}

/// The word of a token.
pub open spec fn word_of(token: TokenView) -> Word {
    Word { kind: token.kind, literal: token.literal }
}

/// The words of a run of tokens.
pub open spec fn words(ts: Seq<TokenView>) -> Seq<Word> {
    Seq::new(ts.len(), |i: int| word_of(ts[i]))
}

/// The word that ends every run of tokens of a text.
pub open spec fn end_word() -> Word {
    Word { kind: TokenKind::EndOfInput, literal: Seq::empty() }
}

/// What a text says: the words of its tokens, without the end of the
/// input.
pub open spec fn content(s: Seq<char>) -> Seq<Word> {
    words(lex(s)).drop_last()
}

/// Whether a text has no illegal token.
pub open spec fn legal_text(s: Seq<char>) -> bool {
    legal(lex(s))
}

/// The tokens of a text are its content and the end of the input.
pub proof fn lemma_words_of_text(s: Seq<char>)
    ensures
        words(lex(s)) == content(s).push(end_word()),
        lex(s).len() == content(s).len() + 1,
        forall|i: int|
            0 <= i < content(s).len() ==> word_of(#[trigger] lex(s)[i]) == content(s)[i],
        lex(s)[content(s).len() as int].kind == TokenKind::EndOfInput,
{
    law_tokens_end(s, 0);
    lemma_end_token(s, 0);
    let all = words(lex(s));
    assert(all.last() == end_word());
    assert(all =~= all.drop_last().push(all.last()));
    assert forall|i: int| 0 <= i < content(s).len() implies word_of(#[trigger] lex(s)[i])
        == content(s)[i] by {
        assert(all[i] == word_of(lex(s)[i]));
    }
}

/// What a text put together from two parts says is what the parts say, one
/// after the other, where no token of the first can run on into the second.
pub proof fn law_content_concatenation(a: Seq<char>, b: Seq<char>)
    requires
        legal_text(a),
        legal_text(b),
        apart(a, b),
    ensures
        content(a + b) == content(a) + content(b),
        legal_text(a + b),
{
    law_lex_concatenation(a, b);
    law_tokens_end(a, 0);
    law_tokens_end(b, 0);
    let ta = lex(a);
    let tb = lex(b);
    let all = ta.drop_last() + shifted(tb, a.len());
    assert(words(all).drop_last() =~= words(ta).drop_last() + words(tb).drop_last());
}

/// What two texts with a blank between them say is what they say, one
/// after the other.
pub proof fn law_content_spaced(a: Seq<char>, b: Seq<char>)
    requires
        legal_text(a),
        legal_text(b),
    ensures
        content(a + seq![' '] + b) == content(a) + content(b),
        legal_text(a + seq![' '] + b),
{
    law_lex_spaced(a, b);
    law_tokens_end(a, 0);
    law_tokens_end(b, 0);
    let ta = lex(a);
    let tb = lex(b);
    let all = ta.drop_last() + shifted(tb, a.len() + 1);
    assert(words(all).drop_last() =~= words(ta).drop_last() + words(tb).drop_last());
}

/// A run of characters of one class that reaches the end of the text ends
/// there.
pub proof fn lemma_run_to_the_end(s: Seq<char>, from: nat, class: CharClass)
    requires
        from <= s.len(),
        forall|i: int| from <= i < s.len() ==> in_class(class, #[trigger] s[i]),
    ensures
        run_end(s, from, class) == s.len(),
    decreases s.len() - from,
{
    if from < s.len() {
        assert(in_class(class, s[from as int]));
        lemma_run_to_the_end(s, from + 1, class);
    }
}

/// A text of nothing but one token says that token.
proof fn lemma_single_token(s: Seq<char>, word: Word)
    requires
        s.len() > 0,
        scan(s, 0) == (TokenView { kind: word.kind, literal: word.literal, position: 0 }, s.len()),
        word.kind != TokenKind::EndOfInput,
        word.kind != TokenKind::Illegal,
    ensures
        content(s) == seq![word],
        legal_text(s),
{
    lemma_end_token(s, s.len());
    let first = TokenView { kind: word.kind, literal: word.literal, position: 0 };
    let last = TokenView { kind: TokenKind::EndOfInput, literal: Seq::empty(), position: s.len() };
    assert(tokens_from(s, 0) == seq![first] + tokens_from(s, s.len()));
    assert(lex(s) =~= seq![first, last]);
    assert(words(lex(s)).drop_last() =~= seq![word]);
}

/// A word alone says itself: a keyword where it spells one, an identifier
/// where it does not.
pub proof fn law_content_word(w: Seq<char>)
    requires
        w.len() > 0,
        is_letter(w[0]),
        forall|i: int| 0 <= i < w.len() ==> is_word_char(#[trigger] w[i]),
    ensures
        content(w) == seq![Word { kind: word_kind(w), literal: w }],
        legal_text(w),
{
    assert(run_end(w, 0, CharClass::Space) == 0);
    lemma_run_to_the_end(w, 0, CharClass::Word);
    assert(w.subrange(0, w.len() as int) =~= w);
    lemma_single_token(w, Word { kind: word_kind(w), literal: w });
}

/// A run of digits alone says an integer with that numeral.
pub proof fn law_content_digits(d: Seq<char>)
    requires
        d.len() > 0,
        forall|i: int| 0 <= i < d.len() ==> is_digit(#[trigger] d[i]),
    ensures
        content(d) == seq![Word { kind: TokenKind::Integer, literal: d }],
        legal_text(d),
{
    assert(is_digit(d[0]));
    assert(run_end(d, 0, CharClass::Space) == 0);
    lemma_run_to_the_end(d, 0, CharClass::Digit);
    assert(d.subrange(0, d.len() as int) =~= d);
    lemma_single_token(d, Word { kind: TokenKind::Integer, literal: d });
}

/// A punctuator of one character alone says that punctuator.
pub proof fn law_content_punctuator(c: char)
    requires
        single_punctuator(c) is Some,
    ensures
        content(seq![c]) == seq![
            Word { kind: TokenKind::Punctuator(single_punctuator(c)->Some_0), literal: seq![c] },
        ],
        legal_text(seq![c]),
{
    let s = seq![c];
    assert(s[0] == c);
    assert(run_end(s, 0, CharClass::Space) == 0);
    assert(s.subrange(0, 1) =~= s);
    lemma_single_token(
        s,
        Word { kind: TokenKind::Punctuator(single_punctuator(c)->Some_0), literal: s },
    );
}

/// `==` and `!=` alone say the operator of two characters.
pub proof fn law_content_comparison(c: char)
    requires
        c == '=' || c == '!',
    ensures
        content(seq![c, '=']) == seq![
            Word {
                kind: TokenKind::Punctuator(
                    if c == '=' {
                        Punctuator::Eq
                    } else {
                        Punctuator::NotEq
                    },
                ),
                literal: seq![c, '='],
            },
        ],
        legal_text(seq![c, '=']),
{
    let s = seq![c, '='];
    assert(s[0] == c);
    assert(s[1] == '=');
    assert(run_end(s, 0, CharClass::Space) == 0);
    assert(s.subrange(0, 2) =~= s);
    lemma_single_token(
        s,
        Word {
            kind: TokenKind::Punctuator(
                if c == '=' {
                    Punctuator::Eq
                } else {
                    Punctuator::NotEq
                },
            ),
            literal: s,
        },
    );
}

/// The words `true` and `false` alone say the keywords.
pub proof fn law_content_truth(value: bool)
    ensures
        content(crate::parser::render::render_bool(value)) == seq![
            Word {
                kind: TokenKind::Keyword(
                    if value {
                        Keyword::True
                    } else {
                        Keyword::False
                    },
                ),
                literal: crate::parser::render::render_bool(value),
            },
        ],
        legal_text(crate::parser::render::render_bool(value)),
{
    reveal_strlit("let");
    reveal_strlit("return");
    reveal_strlit("if");
    reveal_strlit("else");
    reveal_strlit("fn");
    reveal_strlit("true");
    reveal_strlit("false");
    let w = crate::parser::render::render_bool(value);
    assert(w.len() == 4 || w.len() == 5);
    assert("else"@[0] == 'e');
    assert("true"@[0] == 't');
    assert("false"@[0] == 'f');
    assert(w[0] == 't' || w[0] == 'f');
    assert forall|i: int| 0 <= i < w.len() implies is_word_char(#[trigger] w[i]) by {
        if value {
            assert(w[0] == 't' && w[1] == 'r' && w[2] == 'u' && w[3] == 'e');
        } else {
            assert(w[0] == 'f' && w[1] == 'a' && w[2] == 'l' && w[3] == 's' && w[4] == 'e');
        }
    }
    law_content_word(w);
}

/// The text without characters says nothing.
pub proof fn law_content_empty()
    ensures
        content(Seq::<char>::empty()) == Seq::<Word>::empty(),
        legal_text(Seq::<char>::empty()),
{
    let s = Seq::<char>::empty();
    lemma_end_token(s, 0);
    assert(words(lex(s)).drop_last() =~= Seq::<Word>::empty());
}

/// A blank before or behind a text changes nothing of what it says.
pub proof fn law_content_padded(a: Seq<char>)
    requires
        legal_text(a),
    ensures
        content(a + seq![' ']) == content(a),
        content(seq![' '] + a) == content(a),
        legal_text(a + seq![' ']),
        legal_text(seq![' '] + a),
{
    let none = Seq::<char>::empty();
    law_content_empty();
    law_content_spaced(a, none);
    law_content_spaced(none, a);
    assert(a + seq![' '] + none =~= a + seq![' ']);
    assert(none + seq![' '] + a =~= seq![' '] + a);
    assert(content(a) + content(none) =~= content(a));
    assert(content(none) + content(a) =~= content(a));
}

/// A keyword alone says the keyword.
pub proof fn law_content_keyword(k: Keyword)
    ensures
        content(keyword_text(k)) == seq![
            Word { kind: TokenKind::Keyword(k), literal: keyword_text(k) },
        ],
        legal_text(keyword_text(k)),
        keyword_text(k).len() > 0,
        is_word_char(keyword_text(k).last()),
        is_letter(keyword_text(k)[0]),
{
    reveal_strlit("let");
    reveal_strlit("return");
    reveal_strlit("if");
    reveal_strlit("else");
    reveal_strlit("fn");
    reveal_strlit("true");
    reveal_strlit("false");
    let w = keyword_text(k);
    assert("let"@[0] == 'l' && "return"@[0] == 'r' && "if"@[0] == 'i' && "else"@[0] == 'e'
        && "fn"@[0] == 'f' && "true"@[0] == 't' && "false"@[0] == 'f');
    assert("fn"@.len() == 2 && "false"@.len() == 5 && "if"@.len() == 2);
    assert forall|i: int| 0 <= i < w.len() implies is_letter(#[trigger] w[i]) by {
        match k {
            Keyword::Let => {
                assert(w[0] == 'l' && w[1] == 'e' && w[2] == 't');
            },
            Keyword::Return => {
                assert(w[0] == 'r' && w[1] == 'e' && w[2] == 't' && w[3] == 'u' && w[4] == 'r'
                    && w[5] == 'n');
            },
            Keyword::If => {
                assert(w[0] == 'i' && w[1] == 'f');
            },
            Keyword::Else => {
                assert(w[0] == 'e' && w[1] == 'l' && w[2] == 's' && w[3] == 'e');
            },
            Keyword::Function => {
                assert(w[0] == 'f' && w[1] == 'n');
            },
            Keyword::True => {
                assert(w[0] == 't' && w[1] == 'r' && w[2] == 'u' && w[3] == 'e');
            },
            Keyword::False => {
                assert(w[0] == 'f' && w[1] == 'a' && w[2] == 'l' && w[3] == 's' && w[4] == 'e');
            },
        }
    }
    assert(is_letter(w[0]));
    assert(is_letter(w[w.len() - 1]));
    assert(word_kind(w) == TokenKind::Keyword(k));
    law_content_word(w);
}

} // verus!
