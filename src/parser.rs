//! The Pratt parser of the Carlo language and its parselets.
//!
//! Each parselet implements one parsing rule; the registry that maps token
//! classes to parselets is a static dispatch on the class (`prefix_kind`,
//! `infix_kind`).

use vstd::prelude::*;
use crate::error::{lemma_warnings_append, report, warnings_of, Error, Warning};
use crate::expression::{expr_wf, exprs_view, fold, fold_warnings, BinaryOperation, Expr, Expression};
use crate::number::{literal_value, parse_literal, Ratio};
use crate::text::{chars_of, push_char, push_str, string_of, string_of_all};
use crate::token::{class_precedence, Token, TokenClass};
use crate::tokenizer::{get_warnings, let_word, token_view, tokenize, unwrap_warnings, Tokenstream};
use crate::units::{check_unit, dims_view, looks_like_unit, parse_unit, unit_value, Dims, DIMENSIONS};

verus! {

/// The prefix parselets.
#[derive(Clone, Copy, PartialEq, Eq, Structural, Debug)]
pub enum PrefixKind {
    Number,
    Identifier,
    Symbolic,
    FullSymbolic,
    Assignment,
    Parenthesis,
    Header,
    Paragraph,
}

/// The infix parselets.
#[derive(Clone, Copy, PartialEq, Eq, Structural, Debug)]
pub enum InfixKind {
    Reassignment,
    BinaryOperation,
    FunctionCall,
}

/// The prefix parselet registered for a token class.
pub open spec fn prefix_of(class: TokenClass) -> Option<PrefixKind> {
    match class {
        TokenClass::Number | TokenClass::Minus => Some(PrefixKind::Number),
        TokenClass::Identifier => Some(PrefixKind::Identifier),
        TokenClass::Symbolic => Some(PrefixKind::Symbolic),
        TokenClass::FullSymbolic => Some(PrefixKind::FullSymbolic),
        TokenClass::Let => Some(PrefixKind::Assignment),
        TokenClass::OpenParen => Some(PrefixKind::Parenthesis),
        TokenClass::Header => Some(PrefixKind::Header),
        TokenClass::Paragraph => Some(PrefixKind::Paragraph),
        _ => None,
    }
}

/// The infix parselet registered for a token class.
pub open spec fn infix_of(class: TokenClass) -> Option<InfixKind> {
    match class {
        TokenClass::Assignment => Some(InfixKind::Reassignment),
        TokenClass::Plus | TokenClass::Minus | TokenClass::Times | TokenClass::Divide => Some(
            InfixKind::BinaryOperation,
        ),
        TokenClass::OpenParen => Some(InfixKind::FunctionCall),
        _ => None,
    }
}

pub fn prefix_kind(class: TokenClass) -> (r: Option<PrefixKind>)
    ensures
        r == prefix_of(class),
{
    match class {
        TokenClass::Number | TokenClass::Minus => Some(PrefixKind::Number),
        TokenClass::Identifier => Some(PrefixKind::Identifier),
        TokenClass::Symbolic => Some(PrefixKind::Symbolic),
        TokenClass::FullSymbolic => Some(PrefixKind::FullSymbolic),
        TokenClass::Let => Some(PrefixKind::Assignment),
        TokenClass::OpenParen => Some(PrefixKind::Parenthesis),
        TokenClass::Header => Some(PrefixKind::Header),
        TokenClass::Paragraph => Some(PrefixKind::Paragraph),
        _ => None,
    }
}

pub fn infix_kind(class: TokenClass) -> (r: Option<InfixKind>)
    ensures
        r == infix_of(class),
{
    match class {
        TokenClass::Assignment => Some(InfixKind::Reassignment),
        TokenClass::Plus | TokenClass::Minus | TokenClass::Times | TokenClass::Divide => Some(
            InfixKind::BinaryOperation,
        ),
        TokenClass::OpenParen => Some(InfixKind::FunctionCall),
        _ => None,
    }
}

/// Characters that trimming removes: Unicode White_Space.
pub open spec fn is_trimmed(c: char) -> bool {
    ('\u{9}' <= c && c <= '\u{d}') || c == ' ' || c == '\u{85}' || c == '\u{a0}' || c
        == '\u{1680}' || ('\u{2000}' <= c && c <= '\u{200a}') || c == '\u{2028}' || c
        == '\u{2029}' || c == '\u{202f}' || c == '\u{205f}' || c == '\u{3000}'
}

/// Is `c` White_Space in the Unicode sense (what `str::trim` removes)?
pub fn is_trimmed_exec(c: char) -> (r: bool)
    ensures
        r == is_trimmed(c),
{
    ('\u{9}' <= c && c <= '\u{d}') || c == ' ' || c == '\u{85}' || c == '\u{a0}' || c
        == '\u{1680}' || ('\u{2000}' <= c && c <= '\u{200a}') || c == '\u{2028}' || c
        == '\u{2029}' || c == '\u{202f}' || c == '\u{205f}' || c == '\u{3000}'
}

/// The first position at or after `i` that trimming keeps.
pub open spec fn trim_start(s: Seq<char>, i: int) -> int
    decreases s.len() - i,
{
    if 0 <= i < s.len() && is_trimmed(s[i]) {
        trim_start(s, i + 1)
    } else {
        i
    }
}

/// The end of what trimming keeps of `s[..j]`.
pub open spec fn trim_end(s: Seq<char>, lo: int, j: int) -> int
    decreases j - lo,
{
    if lo < j && is_trimmed(s[j - 1]) {
        trim_end(s, lo, j - 1)
    } else {
        j
    }
}

/// `s[from..]` without leading and trailing blanks.
pub open spec fn trimmed(s: Seq<char>, from: int) -> Seq<char> {
    let lo = trim_start(s, from);
    s.subrange(lo, trim_end(s, lo, s.len() as int))
}

proof fn lemma_trim_start(s: Seq<char>, i: int)
    requires
        0 <= i <= s.len(),
    ensures
        i <= trim_start(s, i) <= s.len(),
    decreases s.len() - i,
{
    if i < s.len() && is_trimmed(s[i]) {
        lemma_trim_start(s, i + 1);
    }
}

proof fn lemma_trim_end(s: Seq<char>, lo: int, j: int)
    requires
        0 <= lo <= j <= s.len(),
    ensures
        lo <= trim_end(s, lo, j) <= j,
    decreases j - lo,
{
    if lo < j && is_trimmed(s[j - 1]) {
        lemma_trim_end(s, lo, j - 1);
    }
}

/// `s[from..]` without leading and trailing blanks.
pub fn trim_from(s: &Vec<char>, from: usize) -> (r: String)
    requires
        from <= s@.len(),
    ensures
        r@ == trimmed(s@, from as int),
{
    proof {
        lemma_trim_start(s@, from as int);
    }
    let mut lo = from;
    while lo < s.len() && is_trimmed_exec(s[lo])
        invariant
            from <= lo <= s@.len(),
            trim_start(s@, lo as int) == trim_start(s@, from as int),
        decreases s@.len() - lo,
    {
        lo += 1;
    }
    proof {
        lemma_trim_end(s@, lo as int, s@.len() as int);
    }
    let mut hi = s.len();
    while hi > lo && is_trimmed_exec(s[hi - 1])
        invariant
            lo <= hi <= s@.len(),
            trim_end(s@, lo as int, hi as int) == trim_end(s@, lo as int, s@.len() as int),
        decreases hi - lo,
    {
        hi -= 1;
    }
    string_of(s, lo, hi)
}

/// How a header token's text becomes a document marker: `@@@` makes a
/// sub-sub-header, `@@` a sub-header, `@` a header; the markers are dropped
/// and the rest is trimmed.
pub open spec fn header_of(s: Seq<char>) -> Expr {
    if s.len() >= 3 && s[0] == '@' && s[1] == '@' && s[2] == '@' {
        Expr::Subsubheader(trimmed(s, 3))
    } else if s.len() >= 2 && s[0] == '@' && s[1] == '@' {
        Expr::Subheader(trimmed(s, 2))
    } else if s.len() >= 1 && s[0] == '@' {
        Expr::Header(trimmed(s, 1))
    } else {
        Expr::Header(trimmed(s, 0))
    }
}

/// What every parselet and the driver promise about the token stream.
pub open spec fn advances(before: Tokenstream, after: Tokenstream) -> bool {
    &&& after.wf()
    &&& after.tokens() == before.tokens()
    &&& before.position() <= after.position()
}

/// The token at position `p`, or an empty `Unknown` token past the end.
pub open spec fn tok_at(ts: Seq<(TokenClass, Seq<char>)>, p: int) -> (TokenClass, Seq<char>) {
    if 0 <= p < ts.len() {
        ts[p]
    } else {
        (TokenClass::Unknown, Seq::empty())
    }
}

/// The position after consuming one token at `p` (none past the end).
pub open spec fn step(ts: Seq<(TokenClass, Seq<char>)>, p: int) -> int {
    if 0 <= p < ts.len() {
        p + 1
    } else {
        p
    }
}

/// The precedence of the token at `p` (zero past the end).
pub open spec fn prec_at(ts: Seq<(TokenClass, Seq<char>)>, p: int) -> int {
    if 0 <= p < ts.len() {
        class_precedence(ts[p].0) as int
    } else {
        0
    }
}

/// Adds the powers of a unit to a quantity's, dimension by dimension; a sum
/// out of range leaves that dimension as it was.
pub open spec fn add_dims_spec(a: Seq<int>, b: Seq<int>) -> Seq<int> {
    Seq::new(
        DIMENSIONS as nat,
        |d: int|
            if i64::MIN <= a[d] + b[d] <= i64::MAX {
                a[d] + b[d]
            } else {
                a[d]
            },
    )
}

/// Do all sums of powers stay in range?
pub open spec fn add_dims_ok(a: Seq<int>, b: Seq<int>) -> bool {
    forall|d: int| 0 <= d < DIMENSIONS ==> i64::MIN <= #[trigger] (a[d] + b[d]) <= i64::MAX
}

/// The units that follow a number from position `q` on: every identifier
/// that looks like a unit multiplies the multiplier and adds its powers; one
/// that looks like a unit but is none makes the multiplier zero. Gives the
/// multiplier, the powers, whether anything left its range, and where the
/// units end.
pub open spec fn units_spec(
    ts: Seq<(TokenClass, Seq<char>)>,
    q: int,
    mult: Ratio,
    dims: Seq<int>,
    failed: bool,
) -> (Ratio, Seq<int>, bool, int)
    decreases ts.len() - q,
{
    if 0 <= q < ts.len() && ts[q].0 == TokenClass::Identifier && looks_like_unit(ts[q].1) {
        match unit_value(ts[q].1) {
            Some((m, d)) => {
                let (m2, f2) = match Ratio::product_spec(mult, m) {
                    Some(x) => (x, failed),
                    None => (mult, true),
                };
                units_spec(ts, q + 1, m2, add_dims_spec(dims, d), f2 || !add_dims_ok(dims, d))
            },
            None => units_spec(ts, q + 1, Ratio { num: 0, den: 1 }, dims, failed),
        }
    } else {
        (mult, dims, failed, q)
    }
}

/// The powers of a dimensionless number.
pub open spec fn no_dims() -> Seq<int> {
    seq![0int, 0, 0, 0, 0, 0]
}

/// What the number parselet makes of the token `(c, v)` whose successor is
/// at `q`: the literal (after a `-`, the next token's), scaled by the units
/// that follow; `Null` when the multiplier, the powers or the value leave
/// their range. An unreadable literal counts as zero.
pub open spec fn number_spec(ts: Seq<(TokenClass, Seq<char>)>, c: TokenClass, v: Seq<char>, q: int) -> (
    Expr,
    int,
) {
    let negative = c == TokenClass::Minus;
    let text = if negative {
        tok_at(ts, q).1
    } else {
        v
    };
    let q2 = if negative {
        step(ts, q)
    } else {
        q
    };
    let (mult, dims, failed, q3) = units_spec(ts, q2, Ratio { num: 1, den: 1 }, no_dims(), false);
    let value0 = match literal_value(text) {
        Some(x) => x,
        None => Ratio { num: 0, den: 1 },
    };
    let value = if negative {
        Ratio { num: (-value0.num) as i128, den: value0.den }
    } else {
        value0
    };
    if failed {
        (Expr::Null, q3)
    } else {
        match Ratio::product_spec(mult, value) {
            Some(x) => (Expr::Float(x, dims), q3),
            None => (Expr::Null, q3),
        }
    }
}

/// The operation a token stands for.
pub open spec fn op_of(c: TokenClass) -> BinaryOperation {
    if c == TokenClass::Plus {
        BinaryOperation::Add
    } else if c == TokenClass::Minus {
        BinaryOperation::Sub
    } else if c == TokenClass::Times {
        BinaryOperation::Mul
    } else {
        BinaryOperation::Div
    }
}

/// The Pratt driver on the tokens from `p` on, with precedence floor `prec`:
/// the expression read, and where reading stopped.
pub open spec fn parse_expr_spec(ts: Seq<(TokenClass, Seq<char>)>, p: int, prec: int) -> (Expr, int)
    decreases ts.len() - p, 2int,
{
    let (c, v) = tok_at(ts, p);
    let after = step(ts, p);
    if c == TokenClass::Newline || c == TokenClass::Comment {
        (Expr::Null, after)
    } else {
        match prefix_of(c) {
            None => (Expr::Null, after),
            Some(k) => {
                let (e, end) = prefix_spec(ts, k, c, v, after);
                if after <= end <= ts.len() {
                    infix_loop_spec(ts, e, end, prec)
                } else {
                    (e, end)
                }
            },
        }
    }
}

/// A prefix parselet on the token `(c, v)`, reading on from `q`.
pub open spec fn prefix_spec(
    ts: Seq<(TokenClass, Seq<char>)>,
    k: PrefixKind,
    c: TokenClass,
    v: Seq<char>,
    q: int,
) -> (Expr, int)
    decreases ts.len() - q, 4int,
{
    match k {
        PrefixKind::Number => number_spec(ts, c, v, q),
        PrefixKind::Identifier => (Expr::Identifier(v), q),
        PrefixKind::Symbolic => (
            if tok_at(ts, q).0 == TokenClass::Identifier {
                Expr::Symbolic(tok_at(ts, q).1)
            } else {
                Expr::Null
            },
            step(ts, q),
        ),
        PrefixKind::FullSymbolic => (
            if tok_at(ts, q).0 == TokenClass::Identifier {
                Expr::FullSymbolic(tok_at(ts, q).1)
            } else {
                Expr::Null
            },
            step(ts, q),
        ),
        PrefixKind::Header => (header_of(v), q),
        PrefixKind::Paragraph => (Expr::Paragraph(trimmed(v, 0)), q),
        PrefixKind::Assignment => {
            let q2 = step(ts, q);
            let q3 = step(ts, q2);
            if tok_at(ts, q).0 != TokenClass::Identifier {
                (Expr::Null, q2)
            } else if tok_at(ts, q2).0 != TokenClass::Assignment {
                (Expr::Null, q3)
            } else if q <= q3 <= ts.len() {
                let (r, q4) = parse_expr_spec(ts, q3, 0);
                (Expr::Assignment(tok_at(ts, q).1, Box::new(r)), q4)
            } else {
                (Expr::Null, q3)
            }
        },
        PrefixKind::Parenthesis => {
            if 0 <= q <= ts.len() {
                let (inside, q2) = parse_expr_spec(ts, q, 2);
                let q3 = step(ts, q2);
                if tok_at(ts, q2).0 != TokenClass::CloseParen {
                    (Expr::Null, q3)
                } else {
                    (inside, q3)
                }
            } else {
                (Expr::Null, q)
            }
        },
    }
}

/// An infix parselet on the token of class `c`, with `left` read, reading on from `q`.
pub open spec fn infix_spec(
    ts: Seq<(TokenClass, Seq<char>)>,
    k: InfixKind,
    left: Expr,
    c: TokenClass,
    q: int,
) -> (Expr, int)
    decreases ts.len() - q, 4int,
{
    if q < 0 || q > ts.len() {
        (Expr::Null, q)
    } else {
        match k {
            InfixKind::BinaryOperation => {
                let (right, q2) = parse_expr_spec(ts, q, class_precedence(c) as int);
                (fold(op_of(c), left, right), q2)
            },
            InfixKind::Reassignment => {
                let (right, q2) = parse_expr_spec(ts, q, class_precedence(c) as int);
                (
                    match left {
                        Expr::Identifier(n) => Expr::Reassignment(n, Box::new(right)),
                        _ => Expr::Null,
                    },
                    q2,
                )
            },
            InfixKind::FunctionCall => {
                let p = if class_precedence(c) > 0 {
                    class_precedence(c) - 1
                } else {
                    0
                };
                let (args, q2) = args_spec(ts, q, p, Seq::empty());
                (
                    match left {
                        Expr::Identifier(n) => Expr::FnCall(n, args),
                        _ => Expr::Null,
                    },
                    q2,
                )
            },
        }
    }
}

/// The arguments of a call from `q` on, after those in `acc`: expressions
/// separated by commas, up to the closing parenthesis or the end.
pub open spec fn args_spec(ts: Seq<(TokenClass, Seq<char>)>, q: int, prec: int, acc: Seq<Expr>) -> (
    Seq<Expr>,
    int,
)
    decreases ts.len() - q, 3int,
{
    if q < 0 || q >= ts.len() {
        (acc, q)
    } else if ts[q].0 == TokenClass::CloseParen {
        (acc, q + 1)
    } else {
        let q1 = if ts[q].0 == TokenClass::Comma {
            q + 1
        } else {
            q
        };
        if q1 >= ts.len() {
            (acc, q1)
        } else {
            let (a, q2) = parse_expr_spec(ts, q1, prec);
            if q1 < q2 <= ts.len() {
                args_spec(ts, q2, prec, acc.push(a))
            } else {
                (acc.push(a), q2)
            }
        }
    }
}

/// The infix loop of the driver: while the token at `q` binds tighter than
/// `prec` and has an infix parselet, that parselet extends `e`.
pub open spec fn infix_loop_spec(ts: Seq<(TokenClass, Seq<char>)>, e: Expr, q: int, prec: int) -> (
    Expr,
    int,
)
    decreases ts.len() - q, 5int,
{
    if 0 <= q < ts.len() && prec < prec_at(ts, q) {
        match infix_of(ts[q].0) {
            None => (e, q),
            Some(k) => {
                let (e2, q2) = infix_spec(ts, k, e, ts[q].0, q + 1);
                if q + 1 <= q2 <= ts.len() {
                    infix_loop_spec(ts, e2, q2, prec)
                } else {
                    (e2, q2)
                }
            },
        }
    } else {
        (e, q)
    }
}

/// The statements of the tokens from `p` on.
pub open spec fn parse_all_spec(ts: Seq<(TokenClass, Seq<char>)>, p: int) -> Seq<Expr>
    decreases ts.len() - p,
{
    if p < 0 || p >= ts.len() {
        Seq::empty()
    } else {
        let (e, end) = parse_expr_spec(ts, p, 0);
        if p < end <= ts.len() {
            seq![e] + parse_all_spec(ts, end)
        } else {
            seq![e]
        }
    }
}

/// A token's text as warnings show it: line breaks spelled `newline`.
pub open spec fn described(v: Seq<char>) -> Seq<char>
    decreases v.len(),
{
    if v.len() == 0 {
        Seq::empty()
    } else {
        described(v.drop_last()) + if v.last() == '\n' {
            seq!['n', 'e', 'w', 'l', 'i', 'n', 'e']
        } else {
            seq![v.last()]
        }
    }
}

/// The warning of a multiplier or value out of range.
pub open spec fn overflow_star() -> Warning {
    Warning::ArithmeticOverflow(seq!['*'])
}

/// The warnings of the units from `q` on: one `CouldNotParseNumber` for each
/// word that looks like a unit but is none.
pub open spec fn units_warnings(ts: Seq<(TokenClass, Seq<char>)>, q: int) -> Seq<Warning>
    decreases ts.len() - q,
{
    if 0 <= q < ts.len() && ts[q].0 == TokenClass::Identifier && looks_like_unit(ts[q].1) {
        (if unit_value(ts[q].1) is None {
            seq![Warning::CouldNotParseNumber(ts[q].1)]
        } else {
            Seq::empty()
        }) + units_warnings(ts, q + 1)
    } else {
        Seq::empty()
    }
}

/// The warnings of the number parselet, as `number_spec` reads: the end of
/// the stream after a `-`, unknown units, an unreadable literal, and a
/// result out of range.
pub open spec fn number_warnings(ts: Seq<(TokenClass, Seq<char>)>, c: TokenClass, v: Seq<char>, q: int) -> Seq<
    Warning,
> {
    let negative = c == TokenClass::Minus;
    let text = if negative {
        tok_at(ts, q).1
    } else {
        v
    };
    let q2 = if negative {
        step(ts, q)
    } else {
        q
    };
    let (mult, dims, failed, q3) = units_spec(ts, q2, Ratio { num: 1, den: 1 }, no_dims(), false);
    let value0 = match literal_value(text) {
        Some(x) => x,
        None => Ratio { num: 0, den: 1 },
    };
    let value = if negative {
        Ratio { num: (-value0.num) as i128, den: value0.den }
    } else {
        value0
    };
    (if negative {
        unwrap_warnings(ts, q)
    } else {
        Seq::empty()
    }) + units_warnings(ts, q2) + (if literal_value(text) is None {
        seq![Warning::CouldNotParseNumber(text)]
    } else {
        Seq::empty()
    }) + (if failed || Ratio::product_spec(mult, value) is None {
        seq![overflow_star()]
    } else {
        Seq::empty()
    })
}

/// The warnings of the Pratt driver from `p` on: the end of the stream, a
/// token without a prefix parselet, and those of the parselets it runs.
pub open spec fn parse_expr_warnings(ts: Seq<(TokenClass, Seq<char>)>, p: int, prec: int) -> Seq<
    Warning,
>
    decreases ts.len() - p, 2int,
{
    let (c, v) = tok_at(ts, p);
    let after = step(ts, p);
    unwrap_warnings(ts, p) + if c == TokenClass::Newline || c == TokenClass::Comment {
        Seq::empty()
    } else {
        match prefix_of(c) {
            None => seq![Warning::CouldNotParse(described(v))],
            Some(k) => {
                let (e, end) = prefix_spec(ts, k, c, v, after);
                prefix_warnings(ts, k, c, v, after) + if after <= end <= ts.len() {
                    infix_loop_warnings(ts, e, end, prec)
                } else {
                    Seq::empty()
                }
            },
        }
    }
}

/// The warnings of a prefix parselet.
pub open spec fn prefix_warnings(
    ts: Seq<(TokenClass, Seq<char>)>,
    k: PrefixKind,
    c: TokenClass,
    v: Seq<char>,
    q: int,
) -> Seq<Warning>
    decreases ts.len() - q, 4int,
{
    match k {
        PrefixKind::Number => number_warnings(ts, c, v, q),
        PrefixKind::Symbolic | PrefixKind::FullSymbolic => get_warnings(
            ts,
            q,
            TokenClass::Identifier,
        ),
        PrefixKind::Assignment => {
            let q2 = step(ts, q);
            let q3 = step(ts, q2);
            get_warnings(ts, q, TokenClass::Identifier) + if tok_at(ts, q).0
                != TokenClass::Identifier {
                Seq::empty()
            } else {
                get_warnings(ts, q2, TokenClass::Assignment) + if tok_at(ts, q2).0
                    != TokenClass::Assignment {
                    Seq::empty()
                } else if q <= q3 <= ts.len() {
                    parse_expr_warnings(ts, q3, 0)
                } else {
                    Seq::empty()
                }
            }
        },
        PrefixKind::Parenthesis => {
            if 0 <= q <= ts.len() {
                let (inside, q2) = parse_expr_spec(ts, q, 2);
                parse_expr_warnings(ts, q, 2) + unwrap_warnings(ts, q2) + if tok_at(ts, q2).0
                    != TokenClass::CloseParen {
                    seq![Warning::Expected(TokenClass::CloseParen, tok_at(ts, q2).0)]
                } else {
                    Seq::empty()
                }
            } else {
                Seq::empty()
            }
        },
        _ => Seq::empty(),
    }
}

/// The warnings of an infix parselet on the token `(c, v)`.
pub open spec fn infix_warnings(
    ts: Seq<(TokenClass, Seq<char>)>,
    k: InfixKind,
    left: Expr,
    c: TokenClass,
    v: Seq<char>,
    q: int,
) -> Seq<Warning>
    decreases ts.len() - q, 4int,
{
    if q < 0 || q > ts.len() {
        Seq::empty()
    } else {
        let not_named = if left is Identifier {
            Seq::empty()
        } else {
            seq![Warning::CouldNotParse(described(v))]
        };
        match k {
            InfixKind::BinaryOperation => {
                let (right, q2) = parse_expr_spec(ts, q, class_precedence(c) as int);
                parse_expr_warnings(ts, q, class_precedence(c) as int) + fold_warnings(
                    op_of(c),
                    left,
                    right,
                )
            },
            InfixKind::Reassignment => parse_expr_warnings(ts, q, class_precedence(c) as int)
                + not_named,
            InfixKind::FunctionCall => {
                let p = if class_precedence(c) > 0 {
                    class_precedence(c) - 1
                } else {
                    0
                };
                args_warnings(ts, q, p) + not_named
            },
        }
    }
}

/// The warnings of the arguments of a call from `q` on.
pub open spec fn args_warnings(ts: Seq<(TokenClass, Seq<char>)>, q: int, prec: int) -> Seq<Warning>
    decreases ts.len() - q, 3int,
{
    if q < 0 || q >= ts.len() || ts[q].0 == TokenClass::CloseParen {
        Seq::empty()
    } else {
        let q1 = if ts[q].0 == TokenClass::Comma {
            q + 1
        } else {
            q
        };
        if q1 >= ts.len() {
            Seq::empty()
        } else {
            let (a, q2) = parse_expr_spec(ts, q1, prec);
            parse_expr_warnings(ts, q1, prec) + if q1 < q2 <= ts.len() {
                args_warnings(ts, q2, prec)
            } else {
                Seq::empty()
            }
        }
    }
}

/// The warnings of the infix loop of the driver.
pub open spec fn infix_loop_warnings(ts: Seq<(TokenClass, Seq<char>)>, e: Expr, q: int, prec: int) -> Seq<
    Warning,
>
    decreases ts.len() - q, 5int,
{
    if 0 <= q < ts.len() && prec < prec_at(ts, q) {
        match infix_of(ts[q].0) {
            None => Seq::empty(),
            Some(k) => {
                let (e2, q2) = infix_spec(ts, k, e, ts[q].0, q + 1);
                infix_warnings(ts, k, e, ts[q].0, ts[q].1, q + 1) + if q + 1 <= q2 <= ts.len() {
                    infix_loop_warnings(ts, e2, q2, prec)
                } else {
                    Seq::empty()
                }
            },
        }
    } else {
        Seq::empty()
    }
}

/// The warnings of parsing the statements from `p` on.
pub open spec fn parse_all_warnings(ts: Seq<(TokenClass, Seq<char>)>, p: int) -> Seq<Warning>
    decreases ts.len() - p,
{
    if p < 0 || p >= ts.len() {
        Seq::empty()
    } else {
        let (e, end) = parse_expr_spec(ts, p, 0);
        parse_expr_warnings(ts, p, 0) + if p < end <= ts.len() {
            parse_all_warnings(ts, end)
        } else {
            Seq::empty()
        }
    }
}

/// Parses `let name = expression`.
pub struct AssignmentParselet {}

/// Parses `name = expression` after an identifier.
pub struct ReassignmentParselet {}

/// Parses numbers with their unit suffixes, and their negation.
pub struct NumberParselet {}

/// Parses a free identifier.
pub struct IdentifierParselet {}

/// Parses `&name`.
pub struct SymbolicParselet {}

/// Parses `!name`.
pub struct FullSymbolicParselet {}

/// Parses `( expression )`.
pub struct ParenthesisParselet {}

/// Folds `left op right`.
pub struct BinaryOperationParselet {}

/// Parses `name(argument, ...)` after an identifier.
pub struct FunctionCallParselet {}

/// Parses headers of three levels.
pub struct HeaderParselet {}

/// Parses a paragraph of prose.
pub struct ParagraphParselet {}

/// The Carlo parser.
pub struct Parser {
    pub debug: bool,
}

impl IdentifierParselet {
    pub fn parse(&self, token: Token) -> (r: Expression)
        ensures
            r@ == Expr::Identifier(token.value@),
    {
        Expression::Identifier(token.value)
    }
}

impl HeaderParselet {
    pub fn parse(&self, token: Token) -> (r: Expression)
        ensures
            r@ == header_of(token.value@),
    {
        let s = chars_of(token.value.as_str());
        if s.len() >= 3 && s[0] == '@' && s[1] == '@' && s[2] == '@' {
            Expression::Subsubheader(trim_from(&s, 3))
        } else if s.len() >= 2 && s[0] == '@' && s[1] == '@' {
            Expression::Subheader(trim_from(&s, 2))
        } else if s.len() >= 1 && s[0] == '@' {
            Expression::Header(trim_from(&s, 1))
        } else {
            Expression::Header(trim_from(&s, 0))
        }
    }
}

impl ParagraphParselet {
    pub fn parse(&self, token: Token) -> (r: Expression)
        ensures
            r@ == Expr::Paragraph(trimmed(token.value@, 0)),
    {
        let s = chars_of(token.value.as_str());
        Expression::Paragraph(trim_from(&s, 0))
    }
}

impl SymbolicParselet {
    pub fn parse(&self, ts: &mut Tokenstream) -> (r: Expression)
        requires
            old(ts).wf(),
        ensures
            advances(*old(ts), *final(ts)),
            final(ts).invocations() - old(ts).invocations() <= final(ts).position() - old(
                ts,
            ).position(),
            old(ts).next_class() is Some ==> final(ts).position() == old(ts).position() + 1,
            old(ts).next_class() == Some(TokenClass::Identifier) ==> r@ == Expr::Symbolic(
                old(ts).tokens()[old(ts).position()].1,
            ),
            old(ts).next_class() != Some(TokenClass::Identifier) ==> r@ is Null,
            warnings_of(final(ts).warnings()) == warnings_of(old(ts).warnings()) + get_warnings(old(ts).tokens(), old(ts).position(), TokenClass::Identifier),
    {
        match ts.get(TokenClass::Identifier) {
            Some(t) => Expression::Symbolic(t.value),
            None => Expression::Null,
        }
    }
}

impl FullSymbolicParselet {
    pub fn parse(&self, ts: &mut Tokenstream) -> (r: Expression)
        requires
            old(ts).wf(),
        ensures
            advances(*old(ts), *final(ts)),
            final(ts).invocations() - old(ts).invocations() <= final(ts).position() - old(
                ts,
            ).position(),
            old(ts).next_class() is Some ==> final(ts).position() == old(ts).position() + 1,
            old(ts).next_class() == Some(TokenClass::Identifier) ==> r@ == Expr::FullSymbolic(
                old(ts).tokens()[old(ts).position()].1,
            ),
            old(ts).next_class() != Some(TokenClass::Identifier) ==> r@ is Null,
            warnings_of(final(ts).warnings()) == warnings_of(old(ts).warnings()) + get_warnings(old(ts).tokens(), old(ts).position(), TokenClass::Identifier),
    {
        match ts.get(TokenClass::Identifier) {
            Some(t) => Expression::FullSymbolic(t.value),
            None => Expression::Null,
        }
    }
}

/// The characters of a token's text, with line breaks spelled out.
fn describe(t: &Token) -> (r: String)
    ensures
        r@ == described(t.value@),
{
    let cs = chars_of(t.value.as_str());
    let mut out = String::new();
    let mut i: usize = 0;
    proof {
        reveal_strlit("newline");
        assert(cs@.subrange(0, 0) =~= Seq::<char>::empty());
    }
    while i < cs.len()
        invariant
            i <= cs@.len(),
            out@ == described(cs@.subrange(0, i as int)),
        decreases cs@.len() - i,
    {
        if cs[i] == '\n' {
            push_str(&mut out, "newline");
        } else {
            push_char(&mut out, cs[i]);
        }
        proof {
            assert(cs@.subrange(0, i + 1).drop_last() =~= cs@.subrange(0, i as int));
            assert(cs@.subrange(0, i + 1).last() == cs@[i as int]);
            reveal_strlit("newline");
            assert("newline"@ =~= seq!['n', 'e', 'w', 'l', 'i', 'n', 'e']);
            assert(out@ =~= described(cs@.subrange(0, i + 1)));
        }
        i += 1;
    }
    proof {
        assert(cs@.subrange(0, cs@.len() as int) =~= cs@);
    }
    out
}

/// The quantity `value * multiplier` with the given powers, when both the
/// product and the powers are representable.
fn quantity(value: Ratio, multiplier: Ratio, dims: Dims, ts: &mut Tokenstream) -> (r: Expression)
    requires
        old(ts).wf(),
        value.wf(),
        multiplier.wf(),
    ensures
        final(ts).wf(),
        final(ts).tokens() == old(ts).tokens(),
        final(ts).position() == old(ts).position(),
        final(ts).invocations() == old(ts).invocations(),
        expr_wf(r@),
        match Ratio::product_spec(multiplier, value) {
            Some(v) => r@ == Expr::Float(v, crate::units::dims_view(dims)),
            None => r@ is Null,
        },
        warnings_of(final(ts).warnings()) == warnings_of(old(ts).warnings()) + if Ratio::product_spec(
            multiplier,
            value,
        ) is None {
            seq![overflow_star()]
        } else {
            Seq::empty()
        },
{
    match multiplier.mul(&value) {
        Some(v) => {
            proof {
                assert(warnings_of(ts.warnings()) =~= warnings_of(old(ts).warnings())
                    + Seq::<Warning>::empty());
            }
            Expression::Float { value: v, dims }
        },
        None => {
            let star = string_of_all(&vec!['*']);
            proof {
                assert(star@ =~= seq!['*']);
            }
            ts.warn(Error::ArithmeticOverflow(star));
            proof {
                assert(warnings_of(ts.warnings()) =~= warnings_of(old(ts).warnings()) + seq![
                    overflow_star(),
                ]);
            }
            Expression::Null
        },
    }
}

impl NumberParselet {
    /// Parses a number: an optional leading minus, a decimal literal, then
    /// every following identifier that looks like a unit, each multiplying
    /// the value by its multiplier and adding its powers.
    pub fn parse(&self, ts: &mut Tokenstream, token: Token) -> (r: Expression)
        requires
            old(ts).wf(),
        ensures
            advances(*old(ts), *final(ts)),
            final(ts).invocations() - old(ts).invocations() <= final(ts).position() - old(
                ts,
            ).position(),
            expr_wf(r@),
            (r@, final(ts).position()) == number_spec(
                old(ts).tokens(),
                token.class,
                token.value@,
                old(ts).position(),
            ),
            warnings_of(final(ts).warnings()) == warnings_of(old(ts).warnings()) + number_warnings(
                old(ts).tokens(),
                token.class,
                token.value@,
                old(ts).position(),
            ),
    {
        let ghost tokens = ts.tokens();
        let ghost p0 = ts.position();
        let ghost w0 = warnings_of(ts.warnings());
        let ghost old_value = token.value@;
        let ghost old_class = token.class;
        let negative = token.class == TokenClass::Minus;
        let token = if negative {
            ts.next_unwrap()
        } else {
            token
        };
        proof {
            if negative {
                if p0 >= tokens.len() {
                    assert(token.value@ =~= Seq::<char>::empty());
                }
                assert(token.value@ == tok_at(tokens, p0).1);
            } else {
                assert(warnings_of(ts.warnings()) =~= w0 + Seq::<Warning>::empty());
            }
        }
        let ghost ws = warnings_of(ts.warnings());
        let ghost q2 = ts.position();
        let mut multiplier = Ratio { num: 1, den: 1 };
        let mut dims: Dims = [0, 0, 0, 0, 0, 0];
        let mut failed = false;
        proof {
            assert(dims_view(dims) =~= no_dims());
        }
        let ghost start = *ts;
        loop
            invariant
                advances(start, *ts),
                ts.invocations() == start.invocations(),
                tokens == ts.tokens(),
                multiplier.wf(),
                units_spec(tokens, ts.position(), multiplier, dims_view(dims), failed)
                    == units_spec(tokens, q2, Ratio { num: 1, den: 1 }, no_dims(), false),
                warnings_of(ts.warnings()) + units_warnings(tokens, ts.position()) == ws
                    + units_warnings(tokens, q2),
            ensures
                warnings_of(ts.warnings()) == ws + units_warnings(tokens, q2),
                advances(start, *ts),
                ts.invocations() == start.invocations(),
                tokens == ts.tokens(),
                multiplier.wf(),
                units_spec(tokens, q2, Ratio { num: 1, den: 1 }, no_dims(), false) == (
                    multiplier,
                    dims_view(dims),
                    failed,
                    ts.position(),
                ),
            decreases ts.remaining(),
        {
            let t = match ts.peek() {
                Some(t) => t,
                None => {
                    break ;
                },
            };
            if t.class != TokenClass::Identifier {
                break ;
            }
            let word = chars_of(t.value.as_str());
            if !check_unit(&word) {
                break ;
            }
            let ghost q = ts.position();
            proof {
                assert(token_view(t) == tokens[q]);
            }
            let ghost m0 = multiplier;
            let ghost d0 = dims_view(dims);
            let ghost f0 = failed;
            ts.next();
            match parse_unit(&word) {
                Some(u) => {
                    match multiplier.mul(&u.multiplier) {
                        Some(m) => {
                            multiplier = m;
                        },
                        None => {
                            failed = true;
                        },
                    }
                    let ghost ud = dims_view(u.dims);
                    proof {
                        assert forall|j: int| 0 <= j < DIMENSIONS implies #[trigger] dims@[j] as int
                            == d0[j] by {
                            assert(dims_view(dims)[j] == dims@[j] as int);
                        }
                        assert forall|j: int| 0 <= j < DIMENSIONS implies #[trigger] u.dims@[j] as int
                            == ud[j] by {
                            assert(dims_view(u.dims)[j] == u.dims@[j] as int);
                        }
                    }
                    let mut d: usize = 0;
                    while d < DIMENSIONS
                        invariant
                            d <= DIMENSIONS,
                            ud == dims_view(u.dims),
                            forall|j: int| 0 <= j < DIMENSIONS ==> #[trigger] u.dims@[j] as int == ud[j],
                            d0.len() == DIMENSIONS,
                            ud.len() == DIMENSIONS,
                            forall|j: int| 0 <= j < d ==> #[trigger] dims@[j] as int == add_dims_spec(d0, ud)[j],
                            forall|j: int| d <= j < DIMENSIONS ==> #[trigger] dims@[j] as int == d0[j],
                            failed == (f0 || Ratio::product_spec(m0, u.multiplier) is None || exists|j: int|
                                0 <= j < d && !(i64::MIN <= #[trigger] (d0[j] + ud[j]) <= i64::MAX)),
                        decreases DIMENSIONS - d,
                    {
                        match dims[d].checked_add(u.dims[d]) {
                            Some(v) => {
                                dims[d] = v;
                            },
                            None => {
                                failed = true;
                            },
                        }
                        d += 1;
                    }
                    proof {
                        assert(dims_view(dims) =~= add_dims_spec(d0, ud)) by {
                            assert forall|j: int| 0 <= j < DIMENSIONS implies dims_view(dims)[j]
                                == add_dims_spec(d0, ud)[j] by {
                                assert(dims@[j] as int == add_dims_spec(d0, ud)[j]);
                            }
                        }
                        assert(failed == (f0 || Ratio::product_spec(m0, u.multiplier) is None
                            || !add_dims_ok(d0, ud)));
                        assert(units_warnings(tokens, q) =~= units_warnings(tokens, ts.position()));
                    }
                },
                None => {
                    let ghost wb = warnings_of(ts.warnings());
                    ts.warn(Error::CouldNotParseNumber(t.value));
                    multiplier = Ratio { num: 0, den: 1 };
                    proof {
                        assert(wb + units_warnings(tokens, q) =~= warnings_of(ts.warnings())
                            + units_warnings(tokens, ts.position()));
                    }
                },
            }
        }
        proof {
            assert(units_warnings(tokens, ts.position()) =~= Seq::<Warning>::empty()) by {
                reveal_with_fuel(units_warnings, 1);
            }
        }
        let ghost wu = warnings_of(ts.warnings());
        let ghost text = token.value@;
        let digits = chars_of(token.value.as_str());
        let value = match parse_literal(&digits) {
            Some(v) => v,
            None => {
                ts.warn(Error::CouldNotParseNumber(token.value));
                Ratio { num: 0, den: 1 }
            },
        };
        let ghost wl = warnings_of(ts.warnings());
        proof {
            assert(wl =~= wu + if literal_value(text) is None {
                seq![Warning::CouldNotParseNumber(text)]
            } else {
                Seq::<Warning>::empty()
            });
        }
        let value = if negative {
            Ratio { num: -value.num, den: value.den }
        } else {
            value
        };
        if failed {
            let star = string_of_all(&vec!['*']);
            proof {
                assert(star@ =~= seq!['*']);
            }
            ts.warn(Error::ArithmeticOverflow(star));
            proof {
                assert(warnings_of(ts.warnings()) =~= w0 + number_warnings(
                    tokens,
                    old_class,
                    old_value,
                    p0,
                ));
            }
            return Expression::Null;
        }
        let r = quantity(value, multiplier, dims, ts);
        proof {
            assert(warnings_of(ts.warnings()) =~= w0 + number_warnings(
                tokens,
                old_class,
                old_value,
                p0,
            ));
        }
        r
    }
}

impl Parser {
    /// Constructs a new parser.
    pub fn new(debug: bool) -> (r: Parser)
        ensures
            r.debug == debug,
    {
        Parser { debug }
    }

    /// Parses a whole text into one expression per statement; the warnings
    /// reported on the way are appended to `warnings`.
    pub fn parse(&self, input: &str, warnings: &mut Vec<Error>) -> (r: Vec<Expression>)
        ensures
            exprs_view(r@) == parse_all_spec(tokenize(input@), 0),
            warnings_of(final(warnings)@) == warnings_of(old(warnings)@) + parse_all_warnings(
                tokenize(input@),
                0,
            ),
            forall|i: int| 0 <= i < r@.len() ==> expr_wf(#[trigger] r@[i]@),
            r@.len() <= tokenize(input@).len(),
    {
        let mut ts = Tokenstream::from(input, self.debug);
        let r = self.parse_tokens(&mut ts);
        let mut w = ts.take_warnings();
        let ghost taken = w@;
        warnings.append(&mut w);
        proof {
            lemma_warnings_append(old(warnings)@, taken);
            assert(warnings_of(Seq::<Error>::empty()) =~= Seq::<Warning>::empty());
        }
        r
    }

    /// Parses statements until the token stream is used up.
    pub fn parse_tokens(&self, ts: &mut Tokenstream) -> (r: Vec<Expression>)
        requires
            old(ts).wf(),
        ensures
            advances(*old(ts), *final(ts)),
            final(ts).invocations() - old(ts).invocations() <= final(ts).position() - old(
                ts,
            ).position(),
            final(ts).invocations() - old(ts).invocations() <= old(ts).remaining(),
            final(ts).remaining() == 0,
            exprs_view(r@) == parse_all_spec(old(ts).tokens(), old(ts).position()),
            r@.len() <= old(ts).remaining(),
            forall|i: int| 0 <= i < r@.len() ==> expr_wf(#[trigger] r@[i]@),
            warnings_of(final(ts).warnings()) == warnings_of(old(ts).warnings()) + parse_all_warnings(old(ts).tokens(), old(ts).position()),
    {
        let mut out: Vec<Expression> = Vec::new();
        let ghost start = *ts;
        let ghost tokens = ts.tokens();
        while ts.peek_class().is_some()
            invariant
                advances(start, *ts),
                start == *old(ts),
                ts.invocations() - start.invocations() <= ts.position() - start.position(),
                tokens == ts.tokens(),
                out@.len() <= ts.position() - start.position(),
                forall|i: int| 0 <= i < out@.len() ==> expr_wf(#[trigger] out@[i]@),
                exprs_view(out@) + parse_all_spec(tokens, ts.position()) == parse_all_spec(
                    tokens,
                    start.position(),
                ),
                warnings_of(ts.warnings()) + parse_all_warnings(tokens, ts.position()) == warnings_of(
                    start.warnings(),
                ) + parse_all_warnings(tokens, start.position()),
            decreases ts.remaining(),
        {
            let ghost before = *ts;
            let ghost old_out = out@;
            let e = self.parse_expr(ts, 0, 0);
            out.push(e);
            proof {
                assert(out@.drop_last() =~= old_out);
                assert(parse_all_spec(tokens, before.position()) == seq![e@] + parse_all_spec(
                    tokens,
                    ts.position(),
                ));
                assert(exprs_view(out@) + parse_all_spec(tokens, ts.position()) =~= exprs_view(
                    old_out,
                ) + parse_all_spec(tokens, before.position()));
                assert(warnings_of(ts.warnings()) + parse_all_warnings(tokens, ts.position())
                    =~= warnings_of(before.warnings()) + parse_all_warnings(tokens, before.position()));
            }
        }
        proof {
            assert(parse_all_spec(tokens, ts.position()) =~= Seq::<Expr>::empty());
            assert(exprs_view(out@) + Seq::<Expr>::empty() =~= exprs_view(out@));
            assert(parse_all_warnings(tokens, ts.position()) =~= Seq::<Warning>::empty());
            assert(warnings_of(ts.warnings()) + Seq::<Warning>::empty() =~= warnings_of(ts.warnings()));
        }
        out
    }

    /// The Pratt driver: a prefix parselet for the first token, then infix
    /// parselets while the next token binds tighter than `precedence`.
    pub fn parse_expr(&self, ts: &mut Tokenstream, precedence: u8, nesting: usize) -> (r:
        Expression)
        requires
            old(ts).wf(),
        ensures
            advances(*old(ts), *final(ts)),
            final(ts).invocations() - old(ts).invocations() <= final(ts).position() - old(
                ts,
            ).position(),
            old(ts).next_class() is Some ==> final(ts).position() > old(ts).position(),
            expr_wf(r@),
            (r@, final(ts).position()) == parse_expr_spec(
                old(ts).tokens(),
                old(ts).position(),
                precedence as int,
            ),
            warnings_of(final(ts).warnings()) == warnings_of(old(ts).warnings()) + parse_expr_warnings(old(ts).tokens(), old(ts).position(), precedence as int),
        decreases old(ts).remaining(), 0int,
    {
        let ghost tokens = ts.tokens();
        let ghost p = ts.position();
        let ghost w0 = warnings_of(ts.warnings());
        let ghost total = w0 + parse_expr_warnings(tokens, p, precedence as int);
        let token = ts.next_unwrap();
        proof {
            if p >= tokens.len() {
                assert(token.value@ =~= Seq::<char>::empty());
            }
            assert(token_view(token) == tok_at(tokens, p));
        }
        if token.class == TokenClass::Newline || token.class == TokenClass::Comment {
            proof {
                assert(warnings_of(ts.warnings()) =~= total);
            }
            return Expression::Null;
        }
        let kind = match prefix_kind(token.class) {
            Some(k) => k,
            None => {
                let d = describe(&token);
                ts.warn(Error::CouldNotParse(d));
                proof {
                    assert(warnings_of(ts.warnings()) =~= total);
                }
                return Expression::Null;
            },
        };
        let n = if nesting < usize::MAX {
            nesting + 1
        } else {
            nesting
        };
        let mut expression = self.parse_prefix(kind, ts, token, n);
        let ghost target = infix_loop_spec(tokens, expression@, ts.position(), precedence as int);
        proof {
            assert(warnings_of(ts.warnings()) + infix_loop_warnings(
                tokens,
                expression@,
                ts.position(),
                precedence as int,
            ) =~= total);
        }
        let mut done = false;
        while !done && precedence < ts.precedence()
            invariant
                advances(*old(ts), *ts),
                ts.invocations() - old(ts).invocations() <= ts.position() - old(ts).position(),
                tokens == ts.tokens(),
                old(ts).next_class() is Some ==> ts.position() > old(ts).position(),
                expr_wf(expression@),
                infix_loop_spec(tokens, expression@, ts.position(), precedence as int) == target,
                done ==> target == (expression@, ts.position()),
                warnings_of(ts.warnings()) + infix_loop_warnings(
                    tokens,
                    expression@,
                    ts.position(),
                    precedence as int,
                ) == total,
                done ==> infix_loop_warnings(
                    tokens,
                    expression@,
                    ts.position(),
                    precedence as int,
                ) == Seq::<Warning>::empty(),
            decreases ts.remaining(), (if done {
                0int
            } else {
                1int
            }),
        {
            match ts.peek() {
                Some(token) => match infix_kind(token.class) {
                    Some(infix) => {
                        let ghost q = ts.position();
                        let ghost wq = warnings_of(ts.warnings());
                        let ghost eq = expression@;
                        ts.next();
                        expression = self.parse_infix(infix, ts, expression, token, n);
                        proof {
                            assert(token_view(token) == tokens[q]);
                            assert(wq + infix_loop_warnings(tokens, eq, q, precedence as int)
                                =~= warnings_of(ts.warnings()) + infix_loop_warnings(
                                tokens,
                                expression@,
                                ts.position(),
                                precedence as int,
                            ));
                        }
                    },
                    None => {
                        done = true;
                    },
                },
                None => {
                    done = true;
                },
            }
        }
        proof {
            assert(warnings_of(ts.warnings()) =~= total);
        }
        expression
    }

    fn parse_prefix(&self, kind: PrefixKind, ts: &mut Tokenstream, token: Token, nesting: usize) -> (r:
        Expression)
        requires
            old(ts).wf(),
            old(ts).invocations() < old(ts).position(),
            prefix_of(token.class) == Some(kind),
        ensures
            advances(*old(ts), *final(ts)),
            final(ts).invocations() - old(ts).invocations() <= final(ts).position() - old(
                ts,
            ).position() + 1,
            expr_wf(r@),
            (r@, final(ts).position()) == prefix_spec(
                old(ts).tokens(),
                kind,
                token.class,
                token.value@,
                old(ts).position(),
            ),
            warnings_of(final(ts).warnings()) == warnings_of(old(ts).warnings()) + prefix_warnings(
                old(ts).tokens(),
                kind,
                token.class,
                token.value@,
                old(ts).position(),
            ),
        decreases old(ts).remaining(), 2int,
    {
        ts.note_invocation();
        match kind {
            PrefixKind::Number => NumberParselet {}.parse(ts, token),
            PrefixKind::Identifier => IdentifierParselet {}.parse(token),
            PrefixKind::Symbolic => SymbolicParselet {}.parse(ts),
            PrefixKind::FullSymbolic => FullSymbolicParselet {}.parse(ts),
            PrefixKind::Header => HeaderParselet {}.parse(token),
            PrefixKind::Paragraph => ParagraphParselet {}.parse(token),
            PrefixKind::Assignment => AssignmentParselet {}.parse(self, ts, nesting),
            PrefixKind::Parenthesis => ParenthesisParselet {}.parse(self, ts, token, nesting),
        }
    }

    fn parse_infix(
        &self,
        kind: InfixKind,
        ts: &mut Tokenstream,
        left: Expression,
        token: Token,
        nesting: usize,
    ) -> (r: Expression)
        requires
            old(ts).wf(),
            old(ts).invocations() < old(ts).position(),
            expr_wf(left@),
            infix_of(token.class) == Some(kind),
        ensures
            advances(*old(ts), *final(ts)),
            final(ts).invocations() - old(ts).invocations() <= final(ts).position() - old(
                ts,
            ).position() + 1,
            expr_wf(r@),
            (r@, final(ts).position()) == infix_spec(
                old(ts).tokens(),
                kind,
                left@,
                token.class,
                old(ts).position(),
            ),
            warnings_of(final(ts).warnings()) == warnings_of(old(ts).warnings()) + infix_warnings(
                old(ts).tokens(),
                kind,
                left@,
                token.class,
                token.value@,
                old(ts).position(),
            ),
        decreases old(ts).remaining(), 2int,
    {
        ts.note_invocation();
        match kind {
            InfixKind::BinaryOperation => BinaryOperationParselet {}.parse(
                self,
                ts,
                left,
                token,
                nesting,
            ),
            InfixKind::Reassignment => ReassignmentParselet {}.parse(self, ts, left, token, nesting),
            InfixKind::FunctionCall => FunctionCallParselet {}.parse(self, ts, left, token, nesting),
        }
    }
}

impl AssignmentParselet {
    /// `let name = expression`, after the `let`.
    pub fn parse(&self, parser: &Parser, ts: &mut Tokenstream, nesting: usize) -> (r: Expression)
        requires
            old(ts).wf(),
        ensures
            advances(*old(ts), *final(ts)),
            final(ts).invocations() - old(ts).invocations() <= final(ts).position() - old(
                ts,
            ).position(),
            expr_wf(r@),
            (r@, final(ts).position()) == prefix_spec(
                old(ts).tokens(),
                PrefixKind::Assignment,
                TokenClass::Let,
                let_word(),
                old(ts).position(),
            ),
            warnings_of(final(ts).warnings()) == warnings_of(old(ts).warnings()) + prefix_warnings(
                old(ts).tokens(),
                PrefixKind::Assignment,
                TokenClass::Let,
                let_word(),
                old(ts).position(),
            ),
        decreases old(ts).remaining(), 1int,
    {
        let name = match ts.get(TokenClass::Identifier) {
            Some(t) => t.value,
            None => {
                return Expression::Null;
            },
        };
        if ts.get(TokenClass::Assignment).is_none() {
            return Expression::Null;
        }
        let right = parser.parse_expr(ts, 0, nesting);
        Expression::Assignment { left: name, right: Box::new(right) }
    }
}

impl ParenthesisParselet {
    /// `( expression )`, after the opening parenthesis.
    pub fn parse(&self, parser: &Parser, ts: &mut Tokenstream, token: Token, nesting: usize) -> (r:
        Expression)
        requires
            old(ts).wf(),
            token.class == TokenClass::OpenParen,
        ensures
            advances(*old(ts), *final(ts)),
            final(ts).invocations() - old(ts).invocations() <= final(ts).position() - old(
                ts,
            ).position(),
            expr_wf(r@),
            (r@, final(ts).position()) == prefix_spec(
                old(ts).tokens(),
                PrefixKind::Parenthesis,
                token.class,
                token.value@,
                old(ts).position(),
            ),
            warnings_of(final(ts).warnings()) == warnings_of(old(ts).warnings()) + prefix_warnings(
                old(ts).tokens(),
                PrefixKind::Parenthesis,
                token.class,
                token.value@,
                old(ts).position(),
            ),
        decreases old(ts).remaining(), 1int,
    {
        let ghost tokens = ts.tokens();
        let inside = parser.parse_expr(ts, token.precedence(), nesting);
        let ghost q2 = ts.position();
        let next = ts.next_unwrap();
        proof {
            if q2 < tokens.len() {
                assert(next.class == tok_at(tokens, q2).0);
            }
        }
        if next.class != TokenClass::CloseParen {
            ts.warn(Error::Expected(TokenClass::CloseParen, next.class));
            return Expression::Null;
        }
        inside
    }
}

impl BinaryOperationParselet {
    /// `left op right`, after the operator: the right side binds at the
    /// operator's precedence, and the two sides are folded.
    pub fn parse(
        &self,
        parser: &Parser,
        ts: &mut Tokenstream,
        left: Expression,
        token: Token,
        nesting: usize,
    ) -> (r: Expression)
        requires
            old(ts).wf(),
            expr_wf(left@),
            infix_of(token.class) == Some(InfixKind::BinaryOperation),
        ensures
            advances(*old(ts), *final(ts)),
            final(ts).invocations() - old(ts).invocations() <= final(ts).position() - old(
                ts,
            ).position(),
            expr_wf(r@),
            (r@, final(ts).position()) == infix_spec(
                old(ts).tokens(),
                InfixKind::BinaryOperation,
                left@,
                token.class,
                old(ts).position(),
            ),
            warnings_of(final(ts).warnings()) == warnings_of(old(ts).warnings()) + infix_warnings(
                old(ts).tokens(),
                InfixKind::BinaryOperation,
                left@,
                token.class,
                token.value@,
                old(ts).position(),
            ),
        decreases old(ts).remaining(), 1int,
    {
        let oper = if token.class == TokenClass::Plus {
            BinaryOperation::Add
        } else if token.class == TokenClass::Minus {
            BinaryOperation::Sub
        } else if token.class == TokenClass::Times {
            BinaryOperation::Mul
        } else {
            BinaryOperation::Div
        };
        let right = parser.parse_expr(ts, token.precedence(), nesting);
        ts.fold(oper, left, right)
    }
}

impl ReassignmentParselet {
    /// `name = expression`, after the `=`; the left side must be a name.
    pub fn parse(
        &self,
        parser: &Parser,
        ts: &mut Tokenstream,
        left: Expression,
        token: Token,
        nesting: usize,
    ) -> (r: Expression)
        requires
            old(ts).wf(),
            expr_wf(left@),
            infix_of(token.class) == Some(InfixKind::Reassignment),
        ensures
            advances(*old(ts), *final(ts)),
            final(ts).invocations() - old(ts).invocations() <= final(ts).position() - old(
                ts,
            ).position(),
            expr_wf(r@),
            (r@, final(ts).position()) == infix_spec(
                old(ts).tokens(),
                InfixKind::Reassignment,
                left@,
                token.class,
                old(ts).position(),
            ),
            warnings_of(final(ts).warnings()) == warnings_of(old(ts).warnings()) + infix_warnings(
                old(ts).tokens(),
                InfixKind::Reassignment,
                left@,
                token.class,
                token.value@,
                old(ts).position(),
            ),
        decreases old(ts).remaining(), 1int,
    {
        let right = parser.parse_expr(ts, token.precedence(), nesting);
        match left {
            Expression::Identifier(name) => Expression::Reassignment {
                left: name,
                right: Box::new(right),
            },
            _ => {
                ts.warn(Error::CouldNotParse(describe(&token)));
                Expression::Null
            },
        }
    }
}

impl FunctionCallParselet {
    /// `name(argument, ...)`, after the opening parenthesis; the left side
    /// must be a name.
    pub fn parse(
        &self,
        parser: &Parser,
        ts: &mut Tokenstream,
        left: Expression,
        token: Token,
        nesting: usize,
    ) -> (r: Expression)
        requires
            old(ts).wf(),
            expr_wf(left@),
            infix_of(token.class) == Some(InfixKind::FunctionCall),
        ensures
            advances(*old(ts), *final(ts)),
            final(ts).invocations() - old(ts).invocations() <= final(ts).position() - old(
                ts,
            ).position(),
            expr_wf(r@),
            (r@, final(ts).position()) == infix_spec(
                old(ts).tokens(),
                InfixKind::FunctionCall,
                left@,
                token.class,
                old(ts).position(),
            ),
            warnings_of(final(ts).warnings()) == warnings_of(old(ts).warnings()) + infix_warnings(
                old(ts).tokens(),
                InfixKind::FunctionCall,
                left@,
                token.class,
                token.value@,
                old(ts).position(),
            ),
        decreases old(ts).remaining(), 1int,
    {
        let ghost tokens = ts.tokens();
        let p = token.precedence();
        let p = if p > 0 {
            p - 1
        } else {
            0
        };
        let mut arguments: Vec<Expression> = Vec::new();
        let ghost target = args_spec(tokens, ts.position(), p as int, Seq::empty());
        let ghost wtarget = warnings_of(ts.warnings()) + args_warnings(tokens, ts.position(), p as int);
        proof {
            assert(exprs_view(arguments@) =~= Seq::<Expr>::empty());
        }
        loop
            invariant_except_break
                args_spec(tokens, ts.position(), p as int, exprs_view(arguments@)) == target,
                warnings_of(ts.warnings()) + args_warnings(tokens, ts.position(), p as int) == wtarget,
            invariant
                advances(*old(ts), *ts),
                ts.invocations() - old(ts).invocations() <= ts.position() - old(ts).position(),
                tokens == ts.tokens(),
                forall|i: int| 0 <= i < arguments@.len() ==> expr_wf(#[trigger] arguments@[i]@),
            ensures
                advances(*old(ts), *ts),
                ts.invocations() - old(ts).invocations() <= ts.position() - old(ts).position(),
                tokens == ts.tokens(),
                forall|i: int| 0 <= i < arguments@.len() ==> expr_wf(#[trigger] arguments@[i]@),
                target == (exprs_view(arguments@), ts.position()),
                warnings_of(ts.warnings()) == wtarget,
            decreases ts.remaining(),
        {
            let class = match ts.peek_class() {
                Some(c) => c,
                None => {
                    proof {
                        assert(warnings_of(ts.warnings()) =~= wtarget);
                    }
                    break ;
                },
            };
            let ghost qa = ts.position();
            if class == TokenClass::CloseParen {
                ts.next();
                proof {
                    assert(warnings_of(ts.warnings()) =~= wtarget);
                }
                break ;
            } else if class == TokenClass::Comma {
                ts.next();
                if ts.peek_class().is_none() {
                    proof {
                        assert(warnings_of(ts.warnings()) =~= wtarget);
                    }
                    break ;
                }
            }
            let ghost before = arguments@;
            let argument = parser.parse_expr(ts, p, nesting);
            arguments.push(argument);
            proof {
                assert(arguments@.drop_last() =~= before);
                assert(warnings_of(ts.warnings()) + args_warnings(tokens, ts.position(), p as int)
                    =~= wtarget);
            }
        }
        match left {
            Expression::Identifier(name) => {
                proof {
                    let v = exprs_view(arguments@);
                    crate::expression::lemma_exprs_view(arguments@);
                    assert forall|i: int| 0 <= i < v.len() implies expr_wf(#[trigger] v[i]) by {
                        assert(v[i] == arguments@[i]@);
                    }
                    crate::expression::lemma_exprs_wf(v);
                }
                Expression::FnCall { name, arguments }
            },
            _ => {
                ts.warn(Error::CouldNotParse(describe(&token)));
                Expression::Null
            },
        }
    }
}

} // verus!
