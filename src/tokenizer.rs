//! Tokenizer for the Carlo language.
//!
//! Scanning rules:
//! - before each token, spaces and tabs are skipped, and so is one line break
//!   with the spaces and tabs after it; a second line break (a blank line)
//!   becomes a `Newline` token, unless only whitespace follows: then the text
//!   holds no more tokens;
//! - `#`, `@` and `~` begin a comment, header or paragraph token that runs to
//!   the end of the line (the `~` itself is dropped);
//! - an identifier takes letters, digits and `_`; a number takes digits, `.`,
//!   `e` and `E`, and takes `+` or `-` only right after an `e` or `E`, so that
//!   `1e-3` is one number while `3-2` is three tokens;
//! - every other token is one character long;
//! - a space or `;` right after a token ends it and is dropped.

use vstd::prelude::*;
use crate::error::{report, warning_of, warnings_of, Error, Warning};
use crate::expression::{expr_wf, fold, fold_warnings, BinaryOperation, Expression};
use crate::text::{chars_of, string_of, string_of_all};
use crate::token::{class_of, class_precedence, is_digit, is_digit_exec, is_letter, is_letter_exec, Token, TokenClass};

verus! {

/// Characters that end a token and are dropped with it.
pub open spec fn is_break(c: char) -> bool {
    c == ' ' || c == ';'
}

/// Spaces and tabs.
pub open spec fn is_blank(c: char) -> bool {
    c == ' ' || c == '\t'
}

/// Characters that never begin a token.
pub open spec fn is_whitespace(c: char) -> bool {
    c == ' ' || c == '\t' || c == '\n'
}

/// Classes whose token runs to the end of the line.
pub open spec fn is_line_class(class: TokenClass) -> bool {
    class == TokenClass::Comment || class == TokenClass::Header || class == TokenClass::Paragraph
}

/// The first position at or after `i` that is not a space or tab.
pub open spec fn skip_blanks(cs: Seq<char>, i: int) -> int
    decreases cs.len() - i,
{
    if 0 <= i < cs.len() && is_blank(cs[i]) {
        skip_blanks(cs, i + 1)
    } else {
        i
    }
}

/// Where the token after position `i` begins.
pub open spec fn token_start(cs: Seq<char>, i: int) -> int {
    let j = skip_blanks(cs, i);
    if 0 <= j < cs.len() && cs[j] == '\n' {
        skip_blanks(cs, j + 1)
    } else {
        j
    }
}

/// Does the character at `k` extend a token of class `class`?
pub open spec fn continues(class: TokenClass, cs: Seq<char>, k: int) -> bool {
    let c = cs[k];
    if class == TokenClass::Identifier {
        is_letter(c) || is_digit(c) || c == '_'
    } else if class == TokenClass::Number {
        is_digit(c) || c == '.' || c == 'e' || c == 'E' || ((c == '+' || c == '-') && k > 0
            && (cs[k - 1] == 'e' || cs[k - 1] == 'E'))
    } else if is_line_class(class) {
        c != '\n'
    } else {
        false
    }
}

/// The end of the run of characters from `k` on that extend a token of `class`.
pub open spec fn run_end(class: TokenClass, cs: Seq<char>, k: int) -> int
    decreases cs.len() - k,
{
    if 0 <= k < cs.len() && continues(class, cs, k) {
        run_end(class, cs, k + 1)
    } else {
        k
    }
}

/// The token that begins at `s`: its class, its span `[s, e)`, and where
/// scanning resumes.
pub open spec fn token_at(cs: Seq<char>, s: int) -> (TokenClass, int, int) {
    let class = class_of(cs[s]);
    let e = run_end(class, cs, s + 1);
    let n = if e < cs.len() && is_break(cs[e]) && !is_line_class(class) {
        e + 1
    } else {
        e
    };
    (class, e, n)
}

/// The text that a token keeps of its span.
pub open spec fn token_text(cs: Seq<char>, class: TokenClass, s: int, e: int) -> Seq<char> {
    if class == TokenClass::Paragraph {
        cs.subrange(s + 1, e)
    } else {
        cs.subrange(s, e)
    }
}

/// The keyword `let`.
pub open spec fn let_word() -> Seq<char> {
    seq!['l', 'e', 't']
}

/// The class a token finally gets: an identifier spelled `let` is the keyword.
pub open spec fn final_class(class: TokenClass, text: Seq<char>) -> TokenClass {
    if class == TokenClass::Identifier && text == let_word() {
        TokenClass::Let
    } else {
        class
    }
}

/// Is everything from position `i` on whitespace? Then no token is left: a
/// line break counts as a token only between other tokens.
pub open spec fn only_whitespace(cs: Seq<char>, i: int) -> bool {
    forall|k: int| i <= k < cs.len() ==> is_whitespace(#[trigger] cs[k])
}

/// The next token after position `i`, as (class, text, start, resume point).
pub open spec fn scan(cs: Seq<char>, i: int) -> Option<(TokenClass, Seq<char>, int, int)> {
    let s = token_start(cs, i);
    if s >= cs.len() || only_whitespace(cs, i) {
        None
    } else {
        let (class, e, n) = token_at(cs, s);
        let text = token_text(cs, class, s, e);
        Some((final_class(class, text), text, s, n))
    }
}

pub proof fn lemma_skip_blanks(cs: Seq<char>, i: int)
    requires
        0 <= i <= cs.len(),
    ensures
        i <= skip_blanks(cs, i) <= cs.len(),
        forall|k: int| i <= k < skip_blanks(cs, i) ==> is_blank(#[trigger] cs[k]),
        skip_blanks(cs, i) < cs.len() ==> !is_blank(cs[skip_blanks(cs, i)]),
    decreases cs.len() - i,
{
    if i < cs.len() && is_blank(cs[i]) {
        lemma_skip_blanks(cs, i + 1);
    }
}

pub proof fn lemma_run_end(class: TokenClass, cs: Seq<char>, k: int)
    requires
        0 <= k <= cs.len(),
    ensures
        k <= run_end(class, cs, k) <= cs.len(),
        forall|j: int| k <= j < run_end(class, cs, k) ==> continues(class, cs, j),
        run_end(class, cs, k) < cs.len() ==> !continues(class, cs, run_end(class, cs, k)),
    decreases cs.len() - k,
{
    if k < cs.len() && continues(class, cs, k) {
        lemma_run_end(class, cs, k + 1);
    }
}

pub proof fn lemma_token_start(cs: Seq<char>, i: int)
    requires
        0 <= i <= cs.len(),
    ensures
        i <= token_start(cs, i) <= cs.len(),
        forall|k: int| i <= k < token_start(cs, i) ==> is_whitespace(#[trigger] cs[k]),
        token_start(cs, i) < cs.len() ==> !is_blank(cs[token_start(cs, i)]),
{
    lemma_skip_blanks(cs, i);
    let j = skip_blanks(cs, i);
    if j < cs.len() && cs[j] == '\n' {
        lemma_skip_blanks(cs, j + 1);
    }
}

/// Scanning resumes strictly after where it started, and never past the end.
pub proof fn lemma_scan_advances(cs: Seq<char>, i: int)
    requires
        0 <= i <= cs.len(),
    ensures
        scan(cs, i) is Some ==> {
            let (_, _, s, n) = scan(cs, i)->0;
            i <= s < n <= cs.len()
        },
{
    lemma_token_start(cs, i);
    let s = token_start(cs, i);
    if s < cs.len() {
        let class = class_of(cs[s]);
        lemma_run_end(class, cs, s + 1);
    }
}

/// The tokens of `cs` from position `i` on.
pub open spec fn scan_all(cs: Seq<char>, i: int) -> Seq<(TokenClass, Seq<char>)>
    decreases cs.len() - i,
    when 0 <= i <= cs.len()
    via scan_all_decreases
{
    match scan(cs, i) {
        None => Seq::empty(),
        Some((class, text, _, n)) => seq![(class, text)] + scan_all(cs, n),
    }
}

#[via_fn]
proof fn scan_all_decreases(cs: Seq<char>, i: int) {
    lemma_scan_advances(cs, i);
}

/// The tokens of a whole text.
pub open spec fn tokenize(cs: Seq<char>) -> Seq<(TokenClass, Seq<char>)> {
    scan_all(cs, 0)
}

/// What a token is, to the contracts: its class and its text.
pub open spec fn token_view(t: Token) -> (TokenClass, Seq<char>) {
    (t.class, t.value@)
}

/// What a sequence of tokens is, to the contracts.
pub open spec fn token_views(ts: Seq<Token>) -> Seq<(TokenClass, Seq<char>)> {
    ts.map_values(|t: Token| token_view(t))
}

/// Stores a stream of characters.
pub struct Charstream {
    chars: Vec<char>,
    index: usize,
}

impl Charstream {
    pub closed spec fn chars(&self) -> Seq<char> {
        self.chars@
    }

    pub closed spec fn position(&self) -> int {
        self.index as int
    }

    /// The position lies within the text.
    pub open spec fn wf(&self) -> bool {
        0 <= self.position() <= self.chars().len()
    }

    /// Constructs a new character stream from an input string.
    pub fn from(input: &str) -> (r: Charstream)
        ensures
            r.wf(),
            r.chars() == input@,
            r.position() == 0,
    {
        Charstream { chars: chars_of(input), index: 0 }
    }

    /// Peeks at the next character in the character stream.
    pub fn peek(&self) -> (r: Option<char>)
        requires
            self.wf(),
        ensures
            r == (if self.position() < self.chars().len() {
                Some(self.chars()[self.position()])
            } else {
                None::<char>
            }),
    {
        if self.index < self.chars.len() {
            Some(self.chars[self.index])
        } else {
            None
        }
    }

    /// Gets the next character from the character stream.
    pub fn next(&mut self) -> (r: Option<char>)
        requires
            old(self).wf(),
        ensures
            final(self).wf(),
            final(self).chars() == old(self).chars(),
            r == (if old(self).position() < old(self).chars().len() {
                Some(old(self).chars()[old(self).position()])
            } else {
                None::<char>
            }),
            final(self).position() == (if old(self).position() < old(self).chars().len() {
                old(self).position() + 1
            } else {
                old(self).position()
            }),
    {
        let c = self.peek();
        if self.index < self.chars.len() {
            self.index += 1;
        }
        c
    }

    /// Skips the whitespace before a token.
    fn skip(&mut self)
        requires
            old(self).wf(),
        ensures
            final(self).wf(),
            final(self).chars == old(self).chars,
            final(self).index == token_start(old(self).chars@, old(self).index as int),
    {
        proof {
            lemma_skip_blanks(self.chars@, self.index as int);
        }
        while self.index < self.chars.len() && (self.chars[self.index] == ' '
            || self.chars[self.index] == '\t')
            invariant
                self.wf(),
                self.chars == old(self).chars,
                old(self).index <= self.index,
                skip_blanks(self.chars@, self.index as int) == skip_blanks(
                    self.chars@,
                    old(self).index as int,
                ),
            decreases self.chars@.len() - self.index,
        {
            self.index += 1;
        }
        if self.index < self.chars.len() && self.chars[self.index] == '\n' {
            self.index += 1;
            let ghost j = self.index;
            while self.index < self.chars.len() && (self.chars[self.index] == ' '
                || self.chars[self.index] == '\t')
                invariant
                    self.wf(),
                    self.chars == old(self).chars,
                    j <= self.index,
                    skip_blanks(self.chars@, self.index as int) == skip_blanks(
                        self.chars@,
                        j as int,
                    ),
                decreases self.chars@.len() - self.index,
            {
                self.index += 1;
            }
        }
    }

    /// Does the character at `k` extend a token of class `class`?
    fn continues_at(&self, class: TokenClass, k: usize) -> (r: bool)
        requires
            k < self.chars@.len(),
        ensures
            r == continues(class, self.chars@, k as int),
    {
        let c = self.chars[k];
        match class {
            TokenClass::Identifier => is_letter_exec(c) || is_digit_exec(c) || c == '_',
            TokenClass::Number => {
                if is_digit_exec(c) || c == '.' || c == 'e' || c == 'E' {
                    true
                } else if (c == '+' || c == '-') && k > 0 {
                    self.chars[k - 1] == 'e' || self.chars[k - 1] == 'E'
                } else {
                    false
                }
            },
            TokenClass::Comment | TokenClass::Header | TokenClass::Paragraph => c != '\n',
            _ => false,
        }
    }

    /// Gets the next token from this character stream.
    pub fn get(&mut self) -> (r: Option<Token>)
        requires
            old(self).wf(),
        ensures
            final(self).wf(),
            final(self).chars() == old(self).chars(),
            match scan(old(self).chars(), old(self).position()) {
                None => r is None && final(self).position() == old(self).chars().len(),
                Some((class, text, _, n)) => r is Some && r->0.class == class && r->0.value@
                    == text && final(self).position() == n,
            },
    {
        let ghost cs = self.chars@;
        self.skip();
        proof {
            lemma_token_start(cs, old(self).index as int);
        }
        if self.index >= self.chars.len() {
            return None;
        }
        let s = self.index;
        let mut k = s;
        while k < self.chars.len() && (self.chars[k] == ' ' || self.chars[k] == '\t'
            || self.chars[k] == '\n')
            invariant
                self.wf(),
                self.chars@ == cs,
                self.index == s,
                s <= k <= cs.len(),
                forall|j: int| s <= j < k ==> is_whitespace(#[trigger] cs[j]),
            decreases cs.len() - k,
        {
            k += 1;
        }
        if k >= self.chars.len() {
            self.index = self.chars.len();
            proof {
                assert(only_whitespace(cs, old(self).index as int));
            }
            return None;
        }
        proof {
            assert(!is_whitespace(cs[k as int]));
            assert(!only_whitespace(cs, old(self).index as int));
        }
        let class = TokenClass::from_char(self.chars[s]);
        let mut e = s + 1;
        proof {
            lemma_run_end(class, cs, s + 1);
        }
        while e < self.chars.len() && self.continues_at(class, e)
            invariant
                self.wf(),
                self.chars@ == cs,
                self.index == s,
                s < e <= cs.len(),
                run_end(class, cs, e as int) == run_end(class, cs, s + 1),
            decreases cs.len() - e,
        {
            e += 1;
        }
        let is_line = class == TokenClass::Comment || class == TokenClass::Header || class
            == TokenClass::Paragraph;
        let n = if e < self.chars.len() && (self.chars[e] == ' ' || self.chars[e] == ';')
            && !is_line {
            e + 1
        } else {
            e
        };
        self.index = n;
        let value = if class == TokenClass::Paragraph {
            string_of(&self.chars, s + 1, e)
        } else {
            string_of(&self.chars, s, e)
        };
        proof {
            assert(e == run_end(class, cs, s + 1));
            assert(token_at(cs, s as int) == (class, e as int, n as int));
            assert(value@ == token_text(cs, class, s as int, e as int));
        }
        let is_let = class == TokenClass::Identifier && e - s == 3 && self.chars[s] == 'l'
            && self.chars[s + 1] == 'e' && self.chars[s + 2] == 't';
        proof {
            let text = token_text(cs, class, s as int, e as int);
            if class == TokenClass::Identifier {
                if is_let {
                    assert(text =~= let_word());
                } else if text == let_word() {
                    assert(text.len() == 3);
                    assert(text[0] == cs[s as int]);
                    assert(text[1] == cs[s + 1]);
                    assert(text[2] == cs[s + 2]);
                    assert(false);
                }
            }
        }
        if is_let {
            Some(Token { class: TokenClass::Let, value })
        } else {
            Some(Token { class, value })
        }
    }
}

/// The warning at the end of the stream: it names the last token's text, or
/// `EOF` when there is no token at all.
pub open spec fn eof_warning(ts: Seq<(TokenClass, Seq<char>)>) -> Warning {
    Warning::UnexpectedEOF(
        if ts.len() > 0 {
            ts.last().1
        } else {
            seq!['E', 'O', 'F']
        },
    )
}

/// The warnings of reading the token at `p`: none, or the end-of-stream one.
pub open spec fn unwrap_warnings(ts: Seq<(TokenClass, Seq<char>)>, p: int) -> Seq<Warning> {
    if 0 <= p < ts.len() {
        Seq::empty()
    } else {
        seq![eof_warning(ts)]
    }
}

/// The warnings of reading a token of class `class` at `p`: the end of the
/// stream, or a token of another class.
pub open spec fn get_warnings(ts: Seq<(TokenClass, Seq<char>)>, p: int, class: TokenClass) -> Seq<
    Warning,
> {
    if !(0 <= p < ts.len()) {
        seq![eof_warning(ts)]
    } else if ts[p].0 == class {
        Seq::empty()
    } else {
        seq![Warning::Expected(class, ts[p].0)]
    }
}

/// Stores a stream of tokens, with the warnings reported while reading it.
#[derive(Debug)]
pub struct Tokenstream {
    tokens: Vec<Token>,
    index: usize,
    warnings: Vec<Error>,
    invocations: usize,
}

impl Tokenstream {
    /// The tokens of the stream, as (class, text) pairs.
    pub closed spec fn tokens(&self) -> Seq<(TokenClass, Seq<char>)> {
        token_views(self.tokens@)
    }

    /// How many tokens have been consumed.
    pub closed spec fn position(&self) -> int {
        self.index as int
    }

    /// How many tokens are left.
    pub open spec fn remaining(&self) -> int {
        self.tokens().len() - self.position()
    }

    /// The warnings reported so far.
    pub closed spec fn warnings(&self) -> Seq<Error> {
        self.warnings@
    }

    /// How many parselets have been run on this stream.
    pub closed spec fn invocations(&self) -> int {
        self.invocations as int
    }

    /// Every parselet run follows the reading of a token of its own.
    pub open spec fn wf(&self) -> bool {
        0 <= self.invocations() <= self.position() <= self.tokens().len()
    }

    /// The class of the next token, if any.
    pub open spec fn next_class(&self) -> Option<TokenClass> {
        if self.position() < self.tokens().len() {
            Some(self.tokens()[self.position()].0)
        } else {
            None
        }
    }

    /// Constructs a token stream over the given tokens.
    pub fn new(tokens: Vec<Token>) -> (r: Tokenstream)
        ensures
            r.wf(),
            r.tokens() == token_views(tokens@),
            r.position() == 0,
            r.warnings().len() == 0,
            r.invocations() == 0,
    {
        Tokenstream { tokens, index: 0, warnings: Vec::new(), invocations: 0 }
    }

    /// Constructs a new token stream from an input string.
    pub fn from(input: &str, _debug: bool) -> (r: Tokenstream)
        ensures
            r.wf(),
            r.tokens() == tokenize(input@),
            r.position() == 0,
            r.warnings().len() == 0,
            r.invocations() == 0,
    {
        let mut cs = Charstream::from(input);
        let mut tokens: Vec<Token> = Vec::new();
        loop
            invariant
                cs.wf(),
                cs.chars() == input@,
                0 <= cs.position() <= input@.len(),
                token_views(tokens@) + scan_all(input@, cs.position())
                    == tokenize(input@),
            ensures
                token_views(tokens@) == tokenize(input@),
            decreases input@.len() - cs.position(),
        {
            let ghost before = cs.position();
            proof {
                lemma_scan_advances(input@, before);
            }
            match cs.get() {
                None => {
                    proof {
                        assert(scan_all(input@, before) == Seq::<(TokenClass, Seq<char>)>::empty());
                        assert(token_views(tokens@) =~= tokenize(input@));
                    }
                    break ;
                },
                Some(t) => {
                    let ghost old_tokens = tokens@;
                    tokens.push(t);
                    proof {
                        assert(token_views(tokens@) =~= token_views(old_tokens).push(token_view(t)));
                        assert(scan_all(input@, before) == seq![token_view(t)] + scan_all(
                            input@,
                            cs.position(),
                        ));
                        assert(token_views(tokens@) + scan_all(
                            input@,
                            cs.position(),
                        ) =~= token_views(old_tokens) + scan_all(
                            input@,
                            before,
                        ));
                    }
                },
            }
        }
        Tokenstream { tokens, index: 0, warnings: Vec::new(), invocations: 0 }
    }

    /// Peeks at the next token in the token stream.
    pub fn peek(&self) -> (r: Option<Token>)
        requires
            self.wf(),
        ensures
            match self.next_class() {
                None => r is None,
                Some(c) => r is Some && token_view(r->0) == self.tokens()[self.position()],
            },
    {
        if self.index < self.tokens.len() {
            Some(self.tokens[self.index].duplicate())
        } else {
            None
        }
    }

    /// The class of the next token, if any.
    pub fn peek_class(&self) -> (r: Option<TokenClass>)
        requires
            self.wf(),
        ensures
            r == self.next_class(),
    {
        if self.index < self.tokens.len() {
            Some(self.tokens[self.index].class)
        } else {
            None
        }
    }

    /// Gets the next token from the token stream.
    pub fn next(&mut self) -> (r: Option<Token>)
        requires
            old(self).wf(),
        ensures
            final(self).wf(),
            final(self).tokens() == old(self).tokens(),
            final(self).invocations() == old(self).invocations(),
            final(self).warnings() == old(self).warnings(),
            match old(self).next_class() {
                None => r is None && final(self).position() == old(self).position(),
                Some(c) => r is Some && token_view(r->0) == old(self).tokens()[old(
                    self,
                ).position()] && final(self).position() == old(self).position() + 1,
            },
    {
        let t = self.peek();
        if self.index < self.tokens.len() {
            self.index += 1;
        }
        t
    }

    /// Gets the next token; at the end of the stream, reports an unexpected
    /// end and hands back an empty `Unknown` token.
    pub fn next_unwrap(&mut self) -> (r: Token)
        requires
            old(self).wf(),
        ensures
            final(self).wf(),
            final(self).tokens() == old(self).tokens(),
            final(self).invocations() == old(self).invocations(),
            match old(self).next_class() {
                None => r.class == TokenClass::Unknown && r.value@.len() == 0
                    && final(self).position() == old(self).position(),
                Some(c) => token_view(r) == old(self).tokens()[old(self).position()]
                    && final(self).position() == old(self).position() + 1,
            },
            warnings_of(final(self).warnings()) == warnings_of(old(self).warnings())
                + unwrap_warnings(old(self).tokens(), old(self).position()),
    {
        match self.next() {
            Some(t) => {
                proof {
                    assert(warnings_of(self.warnings@) =~= warnings_of(old(self).warnings@)
                        + unwrap_warnings(old(self).tokens(), old(self).position()));
                }
                t
            },
            None => {
                let last = if self.tokens.len() > 0 {
                    proof {
                        assert(self.tokens()[self.tokens@.len() - 1] == token_view(
                            self.tokens@[self.tokens@.len() - 1],
                        ));
                    }
                    self.tokens[self.tokens.len() - 1].value.clone()
                } else {
                    string_of_all(&vec!['E', 'O', 'F'])
                };
                report(&mut self.warnings, Error::UnexpectedEOF(last));
                proof {
                    assert(warnings_of(self.warnings@) =~= warnings_of(old(self).warnings@)
                        + unwrap_warnings(old(self).tokens(), old(self).position()));
                }
                Token { class: TokenClass::Unknown, value: String::new() }
            },
        }
    }

    /// Gets the next token, which must be of the given class; otherwise
    /// reports what was expected and what was found.
    pub fn get(&mut self, class: TokenClass) -> (r: Option<Token>)
        requires
            old(self).wf(),
        ensures
            final(self).wf(),
            final(self).tokens() == old(self).tokens(),
            final(self).invocations() == old(self).invocations(),
            old(self).next_class() is Some ==> final(self).position() == old(self).position() + 1,
            old(self).next_class() is None ==> final(self).position() == old(self).position(),
            r is Some <==> old(self).next_class() == Some(class),
            r is Some ==> token_view(r->0) == old(self).tokens()[old(self).position()],
            warnings_of(final(self).warnings()) == warnings_of(old(self).warnings())
                + get_warnings(old(self).tokens(), old(self).position(), class),
    {
        let at_end = self.index >= self.tokens.len();
        let token = self.next_unwrap();
        if at_end {
            None
        } else if token.class == class {
            Some(token)
        } else {
            let ghost w = warnings_of(self.warnings@);
            report(&mut self.warnings, Error::Expected(class, token.class));
            proof {
                assert(warnings_of(self.warnings@) =~= warnings_of(old(self).warnings@)
                    + get_warnings(old(self).tokens(), old(self).position(), class));
            }
            None
        }
    }

    /// Gets the precedence of the next token (zero at the end).
    pub fn precedence(&self) -> (r: u8)
        requires
            self.wf(),
        ensures
            r == match self.next_class() {
                None => 0,
                Some(c) => class_precedence(c),
            },
    {
        match self.peek_class() {
            Some(c) => c.precedence(),
            None => 0,
        }
    }

    /// Folds `left op right`, recording the warnings that folding reports.
    pub fn fold(&mut self, op: BinaryOperation, left: Expression, right: Expression) -> (r:
        Expression)
        requires
            old(self).wf(),
            expr_wf(left@),
            expr_wf(right@),
        ensures
            final(self).wf(),
            final(self).tokens() == old(self).tokens(),
            final(self).invocations() == old(self).invocations(),
            final(self).position() == old(self).position(),
            r@ == fold(op, left@, right@),
            expr_wf(r@),
            warnings_of(final(self).warnings()) == warnings_of(old(self).warnings()) + fold_warnings(
                op,
                left@,
                right@,
            ),
    {
        op.simplify(left, right, &mut self.warnings)
    }

    /// How many parselets have been run on this stream.
    pub fn invocation_count(&self) -> (r: usize)
        ensures
            r == self.invocations(),
    {
        self.invocations
    }

    /// How many tokens have been consumed.
    pub fn consumed(&self) -> (r: usize)
        ensures
            r == self.position(),
    {
        self.index
    }

    /// How many tokens the stream holds.
    pub fn len(&self) -> (r: usize)
        ensures
            r == self.tokens().len(),
    {
        proof {
            assert(token_views(self.tokens@).len() == self.tokens@.len());
        }
        self.tokens.len()
    }

    /// Counts the run of one parselet, which has read a token of its own.
    pub fn note_invocation(&mut self)
        requires
            old(self).wf(),
            old(self).invocations() < old(self).position(),
        ensures
            final(self).wf(),
            final(self).tokens() == old(self).tokens(),
            final(self).position() == old(self).position(),
            final(self).warnings() == old(self).warnings(),
            final(self).invocations() == old(self).invocations() + 1,
    {
        self.invocations = self.invocations + 1;
    }

    /// Records a warning.
    pub fn warn(&mut self, e: Error)
        requires
            old(self).wf(),
        ensures
            final(self).wf(),
            final(self).tokens() == old(self).tokens(),
            final(self).invocations() == old(self).invocations(),
            final(self).position() == old(self).position(),
            final(self).warnings() == old(self).warnings().push(e),
            warnings_of(final(self).warnings()) == warnings_of(old(self).warnings()).push(
                warning_of(e),
            ),
    {
        proof {
            crate::error::lemma_warnings_push(self.warnings@, e);
        }
        self.warnings.push(e);
    }

    /// Hands out the warnings recorded so far, leaving none.
    pub fn take_warnings(&mut self) -> (r: Vec<Error>)
        requires
            old(self).wf(),
        ensures
            final(self).wf(),
            final(self).tokens() == old(self).tokens(),
            final(self).invocations() == old(self).invocations(),
            final(self).position() == old(self).position(),
            final(self).warnings().len() == 0,
            r@ == old(self).warnings(),
    {
        let mut out: Vec<Error> = Vec::new();
        std::mem::swap(&mut out, &mut self.warnings);
        out
    }
}

} // verus!
