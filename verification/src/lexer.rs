//! The lexer: source text in, tokens out.

use vstd::prelude::*;
use crate::text::{collect_chars, is_digit, same_text, text_of};
use crate::token::{Keyword, Punctuator, Token, TokenKind, TokenView, token_views};

verus! {

/// The classes of characters that make up runs in the source.
#[derive(Clone, Copy, Debug, PartialEq, Eq, Structural)]
pub enum CharClass {
    /// Blank, tab, line feed, carriage return.
    Space,
    /// Letters, digits and the underscore.
    Word,
    /// The ten decimal digits.
    Digit,
    /// Everything but the double quote.
    Quoted,
}

/// Whether `c` is white space.
pub open spec fn is_space(c: char) -> bool {
    c == ' ' || c == '\t' || c == '\n' || c == '\r'
}

/// Whether `c` may start a word: a letter or the underscore.
pub open spec fn is_letter(c: char) -> bool {
    'a' <= c <= 'z' || 'A' <= c <= 'Z' || c == '_'
}

/// Whether `c` belongs to `class`.
pub open spec fn in_class(class: CharClass, c: char) -> bool {
    match class {
        CharClass::Space => is_space(c),
        CharClass::Word => is_letter(c) || is_digit(c),
        CharClass::Digit => is_digit(c),
        CharClass::Quoted => c != '"',
    }
}

/// The index at which the run of characters of `class` that starts at
/// `from` ends: the first index at or after `from` whose character is not
/// of the class, or the end of the text.
pub open spec fn run_end(s: Seq<char>, from: nat, class: CharClass) -> nat
    decreases s.len() - from,
{
    if from < s.len() && in_class(class, s[from as int]) {
        run_end(s, from + 1, class)
    } else {
        from
    }
}

/// The kind of a word: the keyword that it spells, or an identifier.
pub open spec fn word_kind(text: Seq<char>) -> TokenKind {
    if text == "let"@ {
        TokenKind::Keyword(Keyword::Let)
    } else if text == "return"@ {
        TokenKind::Keyword(Keyword::Return)
    } else if text == "if"@ {
        TokenKind::Keyword(Keyword::If)
    } else if text == "else"@ {
        TokenKind::Keyword(Keyword::Else)
    } else if text == "fn"@ {
        TokenKind::Keyword(Keyword::Function)
    } else if text == "true"@ {
        TokenKind::Keyword(Keyword::True)
    } else if text == "false"@ {
        TokenKind::Keyword(Keyword::False)
    } else {
        TokenKind::Identifier
    }
}

/// The punctuator that a single character spells, if any.
pub open spec fn single_punctuator(c: char) -> Option<Punctuator> {
    if c == '=' {
        Some(Punctuator::Assign)
    } else if c == '+' {
        Some(Punctuator::Add)
    } else if c == '-' {
        Some(Punctuator::Sub)
    } else if c == '*' {
        Some(Punctuator::Mul)
    } else if c == '/' {
        Some(Punctuator::Div)
    } else if c == '!' {
        Some(Punctuator::Not)
    } else if c == '<' {
        Some(Punctuator::LessThan)
    } else if c == '>' {
        Some(Punctuator::GreaterThan)
    } else if c == ',' {
        Some(Punctuator::Comma)
    } else if c == ';' {
        Some(Punctuator::Semicolon)
    } else if c == '(' {
        Some(Punctuator::OpenParen)
    } else if c == ')' {
        Some(Punctuator::CloseParen)
    } else if c == '{' {
        Some(Punctuator::OpenBlock)
    } else if c == '}' {
        Some(Punctuator::CloseBlock)
    } else {
        None
    }
}

/// The token that starts at or after `pos`, and the index just behind it.
///
/// White space before the token is skipped. A word is a letter or an
/// underscore followed by letters, digits and underscores; it is a keyword
/// where it spells one. An integer is a run of digits. A string stands
/// between double quotes, which are not part of its literal; one that is
/// never closed is illegal, up to the end of the text. `==` and `!=` are
/// read before `=` and `!`. Any other character is illegal by itself. At the
/// end of the text stands the end-of-input token, with an empty literal.
pub open spec fn scan(s: Seq<char>, pos: nat) -> (TokenView, nat) {
    let start = run_end(s, pos, CharClass::Space);
    if start >= s.len() {
        (TokenView { kind: TokenKind::EndOfInput, literal: Seq::empty(), position: start }, start)
    } else {
        let c = s[start as int];
        if is_letter(c) {
            let end = run_end(s, start, CharClass::Word);
            let text = s.subrange(start as int, end as int);
            (TokenView { kind: word_kind(text), literal: text, position: start }, end)
        } else if is_digit(c) {
            let end = run_end(s, start, CharClass::Digit);
            let text = s.subrange(start as int, end as int);
            (TokenView { kind: TokenKind::Integer, literal: text, position: start }, end)
        } else if c == '"' {
            let close = run_end(s, start + 1, CharClass::Quoted);
            if close < s.len() {
                let text = s.subrange(start as int + 1, close as int);
                (TokenView { kind: TokenKind::String, literal: text, position: start }, close + 1)
            } else {
                let text = s.subrange(start as int, s.len() as int);
                (TokenView { kind: TokenKind::Illegal, literal: text, position: start }, s.len())
            }
        } else if (c == '=' || c == '!') && start + 1 < s.len() && s[start as int + 1] == '=' {
            let p = if c == '=' {
                Punctuator::Eq
            } else {
                Punctuator::NotEq
            };
            let text = s.subrange(start as int, start as int + 2);
            (
                TokenView { kind: TokenKind::Punctuator(p), literal: text, position: start },
                start + 2,
            )
        } else {
            let text = s.subrange(start as int, start as int + 1);
            let kind = match single_punctuator(c) {
                Some(p) => TokenKind::Punctuator(p),
                None => TokenKind::Illegal,
            };
            (TokenView { kind, literal: text, position: start }, start + 1)
        }
    }
}

/// A run ends at or after its start, and within the text where it starts
/// within it.
pub proof fn lemma_run_end_bounds(s: Seq<char>, from: nat, class: CharClass)
    ensures
        from <= run_end(s, from, class),
        from <= s.len() ==> run_end(s, from, class) <= s.len(),
        run_end(s, from, class) < s.len() ==> !in_class(
            class,
            s[run_end(s, from, class) as int],
        ),
        forall|i: int| from <= i < run_end(s, from, class) ==> in_class(class, #[trigger] s[i]),
    decreases s.len() - from,
{
    if from < s.len() && in_class(class, s[from as int]) {
        lemma_run_end_bounds(s, from + 1, class);
    }
}

/// Every token but the last takes at least one character, and none
/// reaches beyond the text.
pub proof fn lemma_scan_advances(s: Seq<char>, pos: nat)
    ensures
        scan(s, pos).0.kind != TokenKind::EndOfInput ==> pos < scan(s, pos).1 <= s.len(),
        scan(s, pos).0.kind == TokenKind::EndOfInput ==> pos <= scan(s, pos).1,
{
    lemma_run_end_bounds(s, pos, CharClass::Space);
    let start = run_end(s, pos, CharClass::Space);
    if start < s.len() {
        lemma_run_end_bounds(s, start, CharClass::Word);
        lemma_run_end_bounds(s, start, CharClass::Digit);
        lemma_run_end_bounds(s, start + 1, CharClass::Quoted);
        lemma_word_kind_not_end(s.subrange(start as int, run_end(s, start, CharClass::Word) as int));
    }
}

/// No word is the end-of-input token.
pub proof fn lemma_word_kind_not_end(text: Seq<char>)
    ensures
        word_kind(text) != TokenKind::EndOfInput,
{
}

/// The tokens of the text from `pos` on, the end-of-input token last.
pub open spec fn tokens_from(s: Seq<char>, pos: nat) -> Seq<TokenView>
    decreases s.len() - pos,
{
    let (token, next) = scan(s, pos);
    if token.kind == TokenKind::EndOfInput {
        seq![token]
    } else {
        proof {
            lemma_scan_advances(s, pos);
        }
        seq![token] + tokens_from(s, next)
    }
}

/// The tokens of a source text, the end-of-input token last.
pub open spec fn lex(s: Seq<char>) -> Seq<TokenView> {
    tokens_from(s, 0)
}

/// The tokens of a text end with the end-of-input token, and no token
/// before the last is one.
pub proof fn law_tokens_end(s: Seq<char>, pos: nat)
    ensures
        tokens_from(s, pos).len() > 0,
        tokens_from(s, pos).last().kind == TokenKind::EndOfInput,
        forall|i: int|
            0 <= i < tokens_from(s, pos).len() - 1 ==> (#[trigger] tokens_from(s, pos)[i]).kind
                != TokenKind::EndOfInput,
    decreases s.len() - pos,
{
    let (token, next) = scan(s, pos);
    if token.kind != TokenKind::EndOfInput {
        lemma_scan_advances(s, pos);
        law_tokens_end(s, next);
        let rest = tokens_from(s, next);
        let all = tokens_from(s, pos);
        assert(all == seq![token] + rest);
        assert(all.last() == rest.last());
        assert forall|i: int| 0 <= i < all.len() - 1 implies (#[trigger] all[i]).kind
            != TokenKind::EndOfInput by {
            if i > 0 {
                assert(all[i] == rest[i - 1]);
            }
        }
    }
}

/// Every token starts at or behind the position from which the text was
/// read, and each token starts behind the one before it.
pub proof fn law_tokens_in_order(s: Seq<char>, pos: nat)
    requires
        pos <= s.len(),
    ensures
        forall|i: int|
            0 <= i < tokens_from(s, pos).len() ==> pos <= (#[trigger] tokens_from(
                s,
                pos,
            )[i]).position <= s.len(),
        forall|i: int, j: int|
            0 <= i < j < tokens_from(s, pos).len() ==> (#[trigger] tokens_from(s, pos)[i]).position
                < (#[trigger] tokens_from(s, pos)[j]).position,
    decreases s.len() - pos,
{
    let (token, next) = scan(s, pos);
    lemma_run_end_bounds(s, pos, CharClass::Space);
    lemma_scan_advances(s, pos);
    let start = run_end(s, pos, CharClass::Space);
    assert(token.position == start);
    if token.kind != TokenKind::EndOfInput {
        lemma_token_ends_behind_start(s, pos);
        law_tokens_in_order(s, next);
        let rest = tokens_from(s, next);
        let all = tokens_from(s, pos);
        assert(all == seq![token] + rest);
        assert forall|i: int| 0 <= i < all.len() implies pos <= (#[trigger] all[i]).position
            <= s.len() by {
            if i > 0 {
                assert(all[i] == rest[i - 1]);
            }
        }
        assert forall|i: int, j: int| 0 <= i < j < all.len() implies (#[trigger] all[i]).position
            < (#[trigger] all[j]).position by {
            assert(all[j] == rest[j - 1]);
            if i > 0 {
                assert(all[i] == rest[i - 1]);
            }
        }
    }
}

/// A token that is not the end of the input starts within the text and
/// ends behind its start.
pub proof fn lemma_token_ends_behind_start(s: Seq<char>, pos: nat)
    requires
        scan(s, pos).0.kind != TokenKind::EndOfInput,
    ensures
        scan(s, pos).0.position < scan(s, pos).1 <= s.len(),
        pos <= scan(s, pos).0.position,
{
    lemma_run_end_bounds(s, pos, CharClass::Space);
    let start = run_end(s, pos, CharClass::Space);
    lemma_run_end_bounds(s, start, CharClass::Word);
    lemma_run_end_bounds(s, start, CharClass::Digit);
    lemma_run_end_bounds(s, start + 1, CharClass::Quoted);
    lemma_word_kind_not_end(s.subrange(start as int, run_end(s, start, CharClass::Word) as int));
}

fn class_holds(class: CharClass, c: char) -> (r: bool)
    ensures
        r == in_class(class, c),
{
    match class {
        CharClass::Space => c == ' ' || c == '\t' || c == '\n' || c == '\r',
        CharClass::Word => ('a' <= c && c <= 'z') || ('A' <= c && c <= 'Z') || c == '_' || ('0'
            <= c && c <= '9'),
        CharClass::Digit => '0' <= c && c <= '9',
        CharClass::Quoted => c != '"',
    }
}

fn find_run_end(chars: &Vec<char>, from: usize, class: CharClass) -> (end: usize)
    ensures
        end == run_end(chars@, from as nat, class),
{
    let mut i: usize = from;
    while i < chars.len() && class_holds(class, chars[i])
        invariant
            run_end(chars@, from as nat, class) == run_end(chars@, i as nat, class),
        decreases chars.len() - i,
    {
        i = i + 1;
    }
    i
}

fn kind_of_word(text: &String) -> (kind: TokenKind)
    ensures
        kind == word_kind(text@),
{
    if same_text(text, "let") {
        TokenKind::Keyword(Keyword::Let)
    } else if same_text(text, "return") {
        TokenKind::Keyword(Keyword::Return)
    } else if same_text(text, "if") {
        TokenKind::Keyword(Keyword::If)
    } else if same_text(text, "else") {
        TokenKind::Keyword(Keyword::Else)
    } else if same_text(text, "fn") {
        TokenKind::Keyword(Keyword::Function)
    } else if same_text(text, "true") {
        TokenKind::Keyword(Keyword::True)
    } else if same_text(text, "false") {
        TokenKind::Keyword(Keyword::False)
    } else {
        TokenKind::Identifier
    }
}

fn punctuator_of(c: char) -> (r: Option<Punctuator>)
    ensures
        r == single_punctuator(c),
{
    if c == '=' {
        Some(Punctuator::Assign)
    } else if c == '+' {
        Some(Punctuator::Add)
    } else if c == '-' {
        Some(Punctuator::Sub)
    } else if c == '*' {
        Some(Punctuator::Mul)
    } else if c == '/' {
        Some(Punctuator::Div)
    } else if c == '!' {
        Some(Punctuator::Not)
    } else if c == '<' {
        Some(Punctuator::LessThan)
    } else if c == '>' {
        Some(Punctuator::GreaterThan)
    } else if c == ',' {
        Some(Punctuator::Comma)
    } else if c == ';' {
        Some(Punctuator::Semicolon)
    } else if c == '(' {
        Some(Punctuator::OpenParen)
    } else if c == ')' {
        Some(Punctuator::CloseParen)
    } else if c == '{' {
        Some(Punctuator::OpenBlock)
    } else if c == '}' {
        Some(Punctuator::CloseBlock)
    } else {
        None
    }
}

/// A cursor over a source text that hands out its tokens one by one.
pub struct Lexer {
    chars: Vec<char>,
    position: usize,
}

impl Lexer {
    /// The text that the lexer reads.
    pub closed spec fn source(&self) -> Seq<char> {
        self.chars@
    }

    /// The index of the next character to read.
    pub closed spec fn offset(&self) -> nat {
        self.position as nat
    }

    /// A lexer at the start of `input`.
    pub fn new(input: &str) -> (r: Lexer)
        ensures
            r.source() == input@,
            r.offset() == 0,
    {
        Lexer { chars: collect_chars(input), position: 0 }
    }

    /// The next token; the cursor moves behind it.
    #[verifier::rlimit(40)]
    pub fn next_token(&mut self) -> (token: Token)
        ensures
            final(self).source() == old(self).source(),
            (token@, final(self).offset()) == scan(old(self).source(), old(self).offset()),
    {
        let ghost s = self.chars@;
        let n = self.chars.len();
        let start = find_run_end(&self.chars, self.position, CharClass::Space);
        proof {
            lemma_run_end_bounds(s, self.position as nat, CharClass::Space);
        }
        if start >= n {
            self.position = start;
            return Token::new(TokenKind::EndOfInput, String::new(), start);
        }
        let c = self.chars[start];
        proof {
            lemma_run_end_bounds(s, start as nat, CharClass::Word);
            lemma_run_end_bounds(s, start as nat, CharClass::Digit);
            lemma_run_end_bounds(s, start as nat + 1, CharClass::Quoted);
        }
        if ('a' <= c && c <= 'z') || ('A' <= c && c <= 'Z') || c == '_' {
            let end = find_run_end(&self.chars, start, CharClass::Word);
            let text = text_of(&self.chars, start, end);
            let kind = kind_of_word(&text);
            self.position = end;
            Token::new(kind, text, start)
        } else if '0' <= c && c <= '9' {
            let end = find_run_end(&self.chars, start, CharClass::Digit);
            let text = text_of(&self.chars, start, end);
            self.position = end;
            Token::new(TokenKind::Integer, text, start)
        } else if c == '"' {
            let close = find_run_end(&self.chars, start + 1, CharClass::Quoted);
            if close < n {
                let text = text_of(&self.chars, start + 1, close);
                self.position = close + 1;
                Token::new(TokenKind::String, text, start)
            } else {
                let text = text_of(&self.chars, start, n);
                self.position = n;
                Token::new(TokenKind::Illegal, text, start)
            }
        } else if (c == '=' || c == '!') && start + 1 < n && self.chars[start + 1] == '=' {
            let p = if c == '=' {
                Punctuator::Eq
            } else {
                Punctuator::NotEq
            };
            let text = text_of(&self.chars, start, start + 2);
            self.position = start + 2;
            Token::new(TokenKind::Punctuator(p), text, start)
        } else {
            let text = text_of(&self.chars, start, start + 1);
            let kind = match punctuator_of(c) {
                Some(p) => TokenKind::Punctuator(p),
                None => TokenKind::Illegal,
            };
            self.position = start + 1;
            Token::new(kind, text, start)
        }
    }

    /// All the tokens still to come, the end-of-input token last.
    pub fn tokenize(self) -> (tokens: Vec<Token>)
        ensures
            token_views(tokens@) == tokens_from(self.source(), self.offset()),
            tokens.len() > 0,
    {
        let mut lexer = self;
        let ghost s = self.source();
        let mut out: Vec<Token> = Vec::new();
        loop
            invariant_except_break
                token_views(out@) + tokens_from(s, lexer.offset()) == tokens_from(
                    s,
                    self.offset(),
                ),
            invariant
                lexer.source() == s,
                s == self.source(),
            ensures
                token_views(out@) == tokens_from(s, self.offset()),
                out.len() > 0,
            decreases s.len() - lexer.offset() + 1,
        {
            let ghost before = lexer.offset();
            let ghost done = token_views(out@);
            let token = lexer.next_token();
            let last = token.kind == TokenKind::EndOfInput;
            proof {
                lemma_scan_advances(s, before);
            }
            out.push(token);
            proof {
                assert(token_views(out@) =~= done.push(token@));
                if last {
                    assert(token_views(out@) =~= done + tokens_from(s, before));
                } else {
                    assert(token_views(out@) + tokens_from(s, lexer.offset()) =~= done
                        + tokens_from(s, before));
                }
            }
            if last {
                break;
            }
        }
        out
    }
}

/// The tokens of a source text, the end-of-input token last.
pub fn tokenize(input: &str) -> (tokens: Vec<Token>)
    ensures
        token_views(tokens@) == lex(input@),
        tokens.len() > 0,
{
    Lexer::new(input).tokenize()
}

} // verus!
