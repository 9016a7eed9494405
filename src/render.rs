//! Plain-text and LaTeX renderings of expressions, and the evaluation of a
//! whole sequence of statements into text.

use vstd::prelude::*;
use crate::environment::{fuel_of, simplify_spec, simplify_warnings, Bindings, Environment, Resolution};
use crate::error::{warnings_of, Error, Warning};
use crate::expression::{expr_wf, exprs_view, lemma_exprs_view, op_latex, op_symbol, Expr, Expression};
use crate::number::{fixed4_text, push_fixed4, Ratio};
use crate::text::{chars_of, push_char, push_str};
use crate::units::{
    base_name, base_name_exec, dims_view, dims_equal, power_text, push_power, unit_dims, unit_entry,
    unit_multiplier, unit_name, Dims, DIMENSIONS, POWER_ONE, UNIT_COUNT,
};

verus! {

/// The upper-case form of a text, as `str::to_uppercase` gives it.
pub uninterp spec fn upper_of(s: Seq<char>) -> Seq<char>;

/// Relies on `str::to_uppercase`: the result depends on the characters alone.
#[verifier::external_body]
fn uppercase(s: &str) -> (r: String)
    ensures
        r@ == upper_of(s@),
{
    s.to_uppercase()
}

/// The first entry of the unit table whose powers are exactly `d`, from `i` on.
pub open spec fn unit_with_dims(d: Seq<int>, i: int) -> int
    decreases UNIT_COUNT - i,
{
    if i < 0 || i >= UNIT_COUNT {
        UNIT_COUNT as int
    } else if unit_dims(i) == d {
        i
    } else {
        unit_with_dims(d, i + 1)
    }
}

/// How a quantity is shown: the value is expressed in the first unit of the
/// table whose powers match exactly (when that division stays in range), and
/// whatever powers remain are spelled out in base units.
pub open spec fn display_split(v: Ratio, d: Seq<int>) -> (Ratio, int, Seq<int>) {
    let i = unit_with_dims(d, 0);
    if i < UNIT_COUNT {
        match Ratio::quotient_spec(v, unit_multiplier(i)) {
            Some(q) => (q, i, Seq::new(DIMENSIONS as nat, |j: int| 0int)),
            None => (v, UNIT_COUNT as int, d),
        }
    } else {
        (v, UNIT_COUNT as int, d)
    }
}

/// The base-unit suffix of the powers `d[from..]`, with each piece made by `piece`.
pub open spec fn base_suffix(d: Seq<int>, n: int, latex: bool) -> Seq<char>
    decreases n,
{
    if n <= 0 {
        Seq::empty()
    } else {
        base_suffix(d, n - 1, latex) + base_piece(n - 1, d[n - 1], latex)
    }
}

/// One base dimension's piece of a suffix.
pub open spec fn base_piece(k: int, p: int, latex: bool) -> Seq<char> {
    if p == 0 {
        Seq::empty()
    } else if p == POWER_ONE {
        unit_piece(base_name(k), latex)
    } else if latex {
        seq![' ', '\\', ';', ' ', '\\', 'm', 'a', 't', 'h', 'r', 'm', '{'] + base_name(k) + seq![
            '^',
            '{',
        ] + power_text(p) + seq!['}', '}']
    } else {
        seq![' '] + base_name(k) + seq!['^'] + power_text(p)
    }
}

/// One unit name in a suffix.
pub open spec fn unit_piece(name: Seq<char>, latex: bool) -> Seq<char> {
    if latex {
        seq![' ', '\\', ';', ' ', '\\', 'm', 'a', 't', 'h', 'r', 'm', '{'] + name + seq!['}']
    } else {
        seq![' '] + name
    }
}

/// The text of a quantity.
pub open spec fn quantity_text(v: Ratio, d: Seq<int>, latex: bool) -> Seq<char> {
    let (q, i, rest) = display_split(v, d);
    fixed4_text(q) + (if i < UNIT_COUNT {
        unit_piece(unit_name(i), latex)
    } else {
        Seq::empty()
    }) + base_suffix(rest, DIMENSIONS as int, latex)
}

/// Writes the text of a quantity.
pub fn push_quantity(out: &mut String, value: &Ratio, dims: &Dims, latex: bool)
    requires
        value.wf(),
    ensures
        final(out)@ == old(out)@ + quantity_text(*value, dims_view(*dims), latex),
{
    let ghost d = dims_view(*dims);
    let mut i: usize = 0;
    let mut found = false;
    while !found && i < UNIT_COUNT
        invariant
            i <= UNIT_COUNT,
            d == dims_view(*dims),
            unit_with_dims(d, i as int) == unit_with_dims(d, 0),
            found ==> i < UNIT_COUNT && unit_dims(i as int) == d,
        decreases UNIT_COUNT - i, (if found {
            0int
        } else {
            1int
        }),
    {
        let e = unit_entry(i);
        if dims_equal(&e.dims, dims) {
            found = true;
        } else {
            i += 1;
        }
    }
    let ghost start = out@;
    let mut q = *value;
    let mut rest = *dims;
    let mut suffix_unit: Option<usize> = None;
    if i < UNIT_COUNT {
        let e = unit_entry(i);
        if let Some(v) = value.div(&e.multiplier) {
            q = v;
            rest = [0, 0, 0, 0, 0, 0];
            suffix_unit = Some(i);
            proof {
                assert(dims_view(rest) =~= Seq::new(DIMENSIONS as nat, |j: int| 0int));
            }
        }
    }
    push_fixed4(out, &q);
    if let Some(u) = suffix_unit {
        push_unit_piece(out, unit_entry(u).name, latex);
    }
    push_base_suffix(out, &rest, latex);
    proof {
        let (sq, si, srest) = display_split(*value, d);
        assert(sq == q);
        assert(dims_view(rest) == srest);
        assert(out@ =~= start + quantity_text(*value, d, latex));
    }
}

fn push_unit_piece(out: &mut String, name: &str, latex: bool)
    ensures
        final(out)@ == old(out)@ + unit_piece(name@, latex),
{
    let ghost start = out@;
    if latex {
        push_str(out, " \\; \\mathrm{");
        push_str(out, name);
        push_str(out, "}");
        proof {
            reveal_strlit(" \\; \\mathrm{");
            reveal_strlit("}");
        }
    } else {
        push_str(out, " ");
        push_str(out, name);
        proof {
            reveal_strlit(" ");
        }
    }
    proof {
        assert(out@ =~= start + unit_piece(name@, latex));
    }
}

fn push_base_suffix(out: &mut String, d: &Dims, latex: bool)
    ensures
        final(out)@ == old(out)@ + base_suffix(dims_view(*d), DIMENSIONS as int, latex),
{
    let ghost start = out@;
    let ghost dv = dims_view(*d);
    let mut k: usize = 0;
    while k < DIMENSIONS
        invariant
            k <= DIMENSIONS,
            dv == dims_view(*d),
            out@ == start + base_suffix(dv, k as int, latex),
        decreases DIMENSIONS - k,
    {
        let p = d[k];
        let ghost before = out@;
        if p == POWER_ONE {
            push_unit_piece(out, base_name_exec(k), latex);
        } else if p != 0 {
            if latex {
                push_str(out, " \\; \\mathrm{");
                push_str(out, base_name_exec(k));
                push_str(out, "^{");
                push_power(out, p);
                push_str(out, "}}");
                proof {
                    reveal_strlit(" \\; \\mathrm{");
                    reveal_strlit("^{");
                    reveal_strlit("}}");
                }
            } else {
                push_str(out, " ");
                push_str(out, base_name_exec(k));
                push_str(out, "^");
                push_power(out, p);
                proof {
                    reveal_strlit(" ");
                    reveal_strlit("^");
                }
            }
        }
        proof {
            assert(dv[k as int] == p);
            assert(out@ =~= before + base_piece(k as int, p as int, latex));
            assert(base_suffix(dv, k + 1, latex) == base_suffix(dv, k as int, latex) + base_piece(
                k as int,
                dv[k as int],
                latex,
            ));
        }
        k += 1;
    }
}

/// A header in plain text, from its upper-case title: underlined for a
/// header, bare for a sub-header.
pub open spec fn header_text(upper: Seq<char>, underlined: bool) -> Seq<char> {
    if underlined {
        seq!['\n'] + upper + seq!['\n', '=', '=', '=', '\n']
    } else {
        seq!['\n'] + upper + seq!['\n']
    }
}

/// Writes a header in plain text, given its title already in upper case.
pub fn push_header(out: &mut String, upper: &str, underlined: bool)
    ensures
        final(out)@ == old(out)@ + header_text(upper@, underlined),
{
    let ghost start = out@;
    push_str(out, "\n");
    push_str(out, upper);
    if underlined {
        push_str(out, "\n===\n");
    } else {
        push_str(out, "\n");
    }
    proof {
        reveal_strlit("\n");
        reveal_strlit("\n===\n");
        assert(out@ =~= start + header_text(upper@, underlined));
    }
}

/// The plain-text form of an expression.
pub open spec fn plain_text(e: Expr) -> Seq<char>
    decreases e,
{
    match e {
        Expr::Assignment(name, r) => name + seq![' ', '=', ' '] + plain_text(*r),
        Expr::Reassignment(name, r) => name + seq![' ', '=', ' '] + plain_text(*r),
        Expr::Float(v, d) => quantity_text(v, d, false),
        Expr::Identifier(s) => s,
        Expr::Symbolic(s) => s,
        Expr::FullSymbolic(s) => s,
        Expr::BinOp(l, op, r) => seq!['('] + plain_text(*l) + seq![' '] + op_symbol(op) + seq![' ']
            + plain_text(*r) + seq![')'],
        Expr::FnCall(name, args) => name + seq!['('] + plain_list(args) + seq![')'],
        Expr::Paragraph(s) => seq!['\n'] + s + seq!['\n'],
        Expr::Header(s) => header_text(upper_of(s), true),
        Expr::Subheader(s) => header_text(upper_of(s), false),
        Expr::Subsubheader(s) => seq!['\n', '*', ' '] + s + seq!['\n'],
        Expr::Null => seq!['N', 'u', 'l', 'l'],
    }
}

/// The plain-text forms of arguments, separated by `, `.
pub open spec fn plain_list(es: Seq<Expr>) -> Seq<char>
    decreases es,
{
    if es.len() == 0 {
        Seq::empty()
    } else if es.len() == 1 {
        plain_text(es[0])
    } else {
        plain_list(es.drop_last()) + seq![',', ' '] + plain_text(es.last())
    }
}

/// Greek letter names that LaTeX writes as commands.
pub open spec fn is_greek(s: Seq<char>) -> bool {
    s == seq!['a', 'l', 'p', 'h', 'a'] || s == seq!['b', 'e', 't', 'a'] || s == seq![
        'g',
        'a',
        'm',
        'm',
        'a',
    ] || s == seq!['d', 'e', 'l', 't', 'a'] || s == seq!['e', 'p', 's', 'i', 'l', 'o', 'n']
        || s == seq!['v', 'a', 'r', 'e', 'p', 's', 'i', 'l', 'o', 'n'] || s == seq!['x', 'i']
        || s == seq!['p', 'i'] || s == seq!['t', 'h', 'e', 't', 'a'] || s == seq!['p', 'h', 'i']
        || s == seq!['p', 's', 'i'] || s == seq!['o', 'm', 'e', 'g', 'a']
}

/// ASCII letters in lower case; other characters unchanged.
pub open spec fn lower_char(c: char) -> char {
    if 'A' <= c && c <= 'Z' {
        ((c as int) + 32) as char
    } else {
        c
    }
}

pub open spec fn lower_text(s: Seq<char>) -> Seq<char> {
    s.map_values(|c: char| lower_char(c))
}

/// One `_`-separated part of an identifier in LaTeX: a Greek letter name
/// (in any case) gets a backslash.
pub open spec fn latex_part(s: Seq<char>) -> Seq<char> {
    if is_greek(lower_text(s)) {
        seq!['\\'] + s
    } else {
        s
    }
}

/// The identifier `s` in LaTeX from position `i` on, the current part having
/// begun at `start`: each `_` opens a subscript that holds the rest, so that
/// `a_b_c` becomes `a_{b_{c}}`; only the first part (`first`) may be a Greek
/// letter name.
pub open spec fn latex_id_from(s: Seq<char>, start: int, i: int, first: bool) -> Seq<char>
    decreases s.len() - i,
{
    if i >= s.len() || i < start || start < 0 {
        head_part(s.subrange(start, s.len() as int), first)
    } else if s[i] == '_' {
        head_part(s.subrange(start, i), first) + seq!['_', '{'] + latex_id_from(
            s,
            i + 1,
            i + 1,
            false,
        ) + seq!['}']
    } else {
        latex_id_from(s, start, i + 1, first)
    }
}

/// A part of an identifier: the first one with a Greek letter name as a command.
pub open spec fn head_part(p: Seq<char>, first: bool) -> Seq<char> {
    if first {
        latex_part(p)
    } else {
        p
    }
}

/// An identifier in LaTeX: `_` separates nested subscripts, and Greek letter
/// names become commands.
pub open spec fn latex_id(s: Seq<char>) -> Seq<char> {
    latex_id_from(s, 0, 0, true)
}

/// The LaTeX form of an expression; operations below the top level are
/// parenthesised.
pub open spec fn latex_text(e: Expr, top: bool) -> Seq<char>
    decreases e,
{
    match e {
        Expr::Assignment(name, r) => latex_id(name) + seq![' ', ':', '=', ' '] + latex_text(*r, true),
        Expr::Reassignment(name, r) => latex_id(name) + seq![' ', '=', ' '] + latex_text(*r, true),
        Expr::Float(v, d) => quantity_text(v, d, true),
        Expr::Identifier(s) => latex_id(s),
        Expr::Symbolic(s) => s,
        Expr::FullSymbolic(s) => s,
        Expr::BinOp(l, op, r) => if top {
            latex_text(*l, false) + op_latex(op) + latex_text(*r, false)
        } else {
            seq!['('] + latex_text(*l, false) + op_latex(op) + latex_text(*r, false) + seq![')']
        },
        Expr::FnCall(name, args) => if name == seq!['s', 'q', 'r', 't'] && args.len() == 1 {
            seq!['\\', 's', 'q', 'r', 't', '{'] + latex_text(args[0], true) + seq!['}']
        } else {
            latex_id(name) + seq!['('] + latex_list(args) + seq![')']
        },
        Expr::Paragraph(s) => seq!['\n'] + s + seq!['\\', 'p', 'a', 'r', '\n'],
        Expr::Header(s) => seq!['\n', '\\', 's', 'e', 'c', 't', 'i', 'o', 'n', '{'] + s + seq![
            '}',
            '\n',
        ],
        Expr::Subheader(s) => seq!['\n', '\\', 's', 'u', 'b', 's', 'e', 'c', 't', 'i', 'o', 'n', '{']
            + s + seq!['}', '\n'],
        Expr::Subsubheader(s) => seq![
            '\n',
            '\\',
            's',
            'u',
            'b',
            's',
            'u',
            'b',
            's',
            'e',
            'c',
            't',
            'i',
            'o',
            'n',
            '{',
        ] + s + seq!['}', '\n'],
        Expr::Null => Seq::empty(),
    }
}

/// The LaTeX forms of arguments, separated by `, `.
pub open spec fn latex_list(es: Seq<Expr>) -> Seq<char>
    decreases es,
{
    if es.len() == 0 {
        Seq::empty()
    } else if es.len() == 1 {
        latex_text(es[0], true)
    } else {
        latex_list(es.drop_last()) + seq![',', ' '] + latex_text(es.last(), true)
    }
}

fn push_latex_part(out: &mut String, cs: &Vec<char>, from: usize, to: usize, first: bool)
    requires
        from <= to <= cs@.len(),
    ensures
        final(out)@ == old(out)@ + head_part(cs@.subrange(from as int, to as int), first),
{
    let ghost start = out@;
    let ghost part = cs@.subrange(from as int, to as int);
    if first && is_greek_exec(cs, from, to) {
        push_char(out, '\\');
    }
    let mut i = from;
    let ghost mid = out@;
    while i < to
        invariant
            from <= i <= to <= cs@.len(),
            out@ == mid + cs@.subrange(from as int, i as int),
        decreases to - i,
    {
        push_char(out, cs[i]);
        proof {
            assert(cs@.subrange(from as int, i + 1) =~= cs@.subrange(from as int, i as int).push(
                cs@[i as int],
            ));
        }
        i += 1;
    }
    proof {
        assert(out@ =~= start + head_part(part, first));
    }
}

/// Is `cs[from..to]`, in lower case, a Greek letter name?
fn is_greek_exec(cs: &Vec<char>, from: usize, to: usize) -> (r: bool)
    requires
        from <= to <= cs@.len(),
    ensures
        r == is_greek(lower_text(cs@.subrange(from as int, to as int))),
{
    let mut low: Vec<char> = Vec::new();
    let mut i = from;
    while i < to
        invariant
            from <= i <= to <= cs@.len(),
            low@ == lower_text(cs@.subrange(from as int, i as int)),
        decreases to - i,
    {
        let c = cs[i];
        let l = if 'A' <= c && c <= 'Z' {
            ((c as u32) + 32) as u8 as char
        } else {
            c
        };
        proof {
            if 'A' <= c && c <= 'Z' {
                assert(l == lower_char(c)) by {
                    assert((c as u32) + 32 < 256);
                }
            }
        }
        low.push(l);
        proof {
            assert(low@ =~= lower_text(cs@.subrange(from as int, i + 1)));
        }
        i += 1;
    }
    let names = [
        "alpha",
        "beta",
        "gamma",
        "delta",
        "epsilon",
        "varepsilon",
        "xi",
        "pi",
        "theta",
        "phi",
        "psi",
        "omega",
    ];
    let mut found = false;
    let mut k: usize = 0;
    proof {
        reveal_strlit("alpha");
        reveal_strlit("beta");
        reveal_strlit("gamma");
        reveal_strlit("delta");
        reveal_strlit("epsilon");
        reveal_strlit("varepsilon");
        reveal_strlit("xi");
        reveal_strlit("pi");
        reveal_strlit("theta");
        reveal_strlit("phi");
        reveal_strlit("psi");
        reveal_strlit("omega");
    }
    let ghost g = low@;
    while k < 12
        invariant
            k <= 12,
            g == low@,
            names@.len() == 12,
            names@ == seq![
                "alpha",
                "beta",
                "gamma",
                "delta",
                "epsilon",
                "varepsilon",
                "xi",
                "pi",
                "theta",
                "phi",
                "psi",
                "omega",
            ],
            found == exists|j: int| 0 <= j < k && #[trigger] names@[j]@ == g,
        decreases 12 - k,
    {
        let n = names[k];
        if crate::text::starts_with(&low, n) && low.len() == n.unicode_len() {
            proof {
                assert(g.subrange(0, g.len() as int) =~= g);
            }
            found = true;
        } else {
            proof {
                if n@ == g {
                    assert(g.subrange(0, g.len() as int) =~= g);
                }
            }
        }
        proof {
            if found {
                if n@ == g {
                    assert(names@[k as int]@ == g);
                }
            }
        }
        k += 1;
    }
    proof {
        if found {
            let j = choose|j: int| 0 <= j < 12 && #[trigger] names@[j]@ == g;
            assert(is_greek(g)) by {
                assert(names@[j]@ == g);
                if j == 0 {
                    assert("alpha"@ =~= seq!['a', 'l', 'p', 'h', 'a']);
                } else if j == 1 {
                    assert("beta"@ =~= seq!['b', 'e', 't', 'a']);
                } else if j == 2 {
                    assert("gamma"@ =~= seq!['g', 'a', 'm', 'm', 'a']);
                } else if j == 3 {
                    assert("delta"@ =~= seq!['d', 'e', 'l', 't', 'a']);
                } else if j == 4 {
                    assert("epsilon"@ =~= seq!['e', 'p', 's', 'i', 'l', 'o', 'n']);
                } else if j == 5 {
                    assert("varepsilon"@ =~= seq!['v', 'a', 'r', 'e', 'p', 's', 'i', 'l', 'o', 'n']);
                } else if j == 6 {
                    assert("xi"@ =~= seq!['x', 'i']);
                } else if j == 7 {
                    assert("pi"@ =~= seq!['p', 'i']);
                } else if j == 8 {
                    assert("theta"@ =~= seq!['t', 'h', 'e', 't', 'a']);
                } else if j == 9 {
                    assert("phi"@ =~= seq!['p', 'h', 'i']);
                } else if j == 10 {
                    assert("psi"@ =~= seq!['p', 's', 'i']);
                } else {
                    assert("omega"@ =~= seq!['o', 'm', 'e', 'g', 'a']);
                }
            }
        } else {
            assert(!is_greek(g)) by {
                assert(names@[0]@ != g);
                assert(names@[1]@ != g);
                assert(names@[2]@ != g);
                assert(names@[3]@ != g);
                assert(names@[4]@ != g);
                assert(names@[5]@ != g);
                assert(names@[6]@ != g);
                assert(names@[7]@ != g);
                assert(names@[8]@ != g);
                assert(names@[9]@ != g);
                assert(names@[10]@ != g);
                assert(names@[11]@ != g);
                assert("alpha"@ =~= seq!['a', 'l', 'p', 'h', 'a']);
                assert("beta"@ =~= seq!['b', 'e', 't', 'a']);
                assert("gamma"@ =~= seq!['g', 'a', 'm', 'm', 'a']);
                assert("delta"@ =~= seq!['d', 'e', 'l', 't', 'a']);
                assert("epsilon"@ =~= seq!['e', 'p', 's', 'i', 'l', 'o', 'n']);
                assert("varepsilon"@ =~= seq!['v', 'a', 'r', 'e', 'p', 's', 'i', 'l', 'o', 'n']);
                assert("xi"@ =~= seq!['x', 'i']);
                assert("pi"@ =~= seq!['p', 'i']);
                assert("theta"@ =~= seq!['t', 'h', 'e', 't', 'a']);
                assert("phi"@ =~= seq!['p', 'h', 'i']);
                assert("psi"@ =~= seq!['p', 's', 'i']);
                assert("omega"@ =~= seq!['o', 'm', 'e', 'g', 'a']);
            }
        }
    }
    found
}

/// Writes the identifier `cs` in LaTeX from position `start` on.
fn push_latex_id_from(out: &mut String, cs: &Vec<char>, start: usize, first: bool)
    requires
        start <= cs@.len(),
    ensures
        final(out)@ == old(out)@ + latex_id_from(cs@, start as int, start as int, first),
    decreases cs@.len() - start,
{
    let mut j = start;
    while j < cs.len() && cs[j] != '_'
        invariant
            start <= j <= cs@.len(),
            latex_id_from(cs@, start as int, j as int, first) == latex_id_from(
                cs@,
                start as int,
                start as int,
                first,
            ),
        decreases cs@.len() - j,
    {
        j += 1;
    }
    let ghost before = out@;
    push_latex_part(out, cs, start, j, first);
    if j < cs.len() {
        push_str(out, "_{");
        push_latex_id_from(out, cs, j + 1, false);
        push_str(out, "}");
        proof {
            reveal_strlit("_{");
            reveal_strlit("}");
        }
    }
    proof {
        assert(out@ =~= before + latex_id_from(cs@, start as int, j as int, first));
    }
}

/// Converts an identifier to LaTeX.
pub fn latex_identifier(id: &str) -> (r: String)
    ensures
        r@ == latex_id(id@),
{
    let cs = chars_of(id);
    let mut out = String::new();
    push_latex_id_from(&mut out, &cs, 0, true);
    proof {
        assert(out@ =~= latex_id(cs@));
    }
    out
}

impl Expression {
    /// Writes the plain-text form of this expression.
    pub fn push_plain(&self, out: &mut String)
        requires
            expr_wf(self@),
        ensures
            final(out)@ == old(out)@ + plain_text(self@),
        decreases self,
    {
        let ghost start = out@;
        match self {
            Expression::Assignment { left, right } | Expression::Reassignment { left, right } => {
                push_str(out, left.as_str());
                push_str(out, " = ");
                right.push_plain(out);
                proof {
                    reveal_strlit(" = ");
                }
            },
            Expression::Float { value, dims } => push_quantity(out, value, dims, false),
            Expression::Identifier(s) | Expression::Symbolic(s) | Expression::FullSymbolic(s) => {
                push_str(out, s.as_str());
            },
            Expression::BinOp { left, oper, right } => {
                push_str(out, "(");
                left.push_plain(out);
                push_str(out, " ");
                push_str(out, oper.symbol());
                push_str(out, " ");
                right.push_plain(out);
                push_str(out, ")");
                proof {
                    reveal_strlit("(");
                    reveal_strlit(" ");
                    reveal_strlit(")");
                }
            },
            Expression::FnCall { name, arguments } => {
                push_str(out, name.as_str());
                push_str(out, "(");
                let ghost mid = out@;
                let ghost args = exprs_view(arguments@);
                proof {
                    lemma_exprs_view(arguments@);
                    crate::expression::lemma_call_args_wf(name@, args);
                }
                let mut i: usize = 0;
                while i < arguments.len()
                    invariant
                        i <= arguments@.len(),
                        *self == (Expression::FnCall { name: *name, arguments: *arguments }),
                        args == exprs_view(arguments@),
                        args.len() == arguments@.len(),
                        forall|j: int| 0 <= j < args.len() ==> #[trigger] args[j] == arguments@[j]@,
                        forall|j: int| 0 <= j < args.len() ==> expr_wf(#[trigger] args[j]),
                        out@ == mid + plain_list(args.subrange(0, i as int)),
                    decreases arguments@.len() - i,
                {
                    proof {
                        vstd::std_specs::vec::axiom_vec_index_decreases(*arguments, i as int);
                        assert(decreases_to!(*self => (*self)->FnCall_arguments));
                        assert(expr_wf(args[i as int]));
                    }
                    let ghost before = out@;
                    if i > 0 {
                        push_str(out, ", ");
                    }
                    arguments[i].push_plain(out);
                    proof {
                        reveal_strlit(", ");
                        let sub = args.subrange(0, i + 1);
                        assert(sub.drop_last() =~= args.subrange(0, i as int));
                        assert(sub.last() == args[i as int]);
                        if i == 0 {
                            assert(sub.len() == 1);
                            assert(out@ =~= mid + plain_list(sub));
                        } else {
                            assert(out@ =~= mid + plain_list(sub));
                        }
                    }
                    i += 1;
                }
                push_str(out, ")");
                proof {
                    reveal_strlit("(");
                    reveal_strlit(")");
                    assert(args.subrange(0, args.len() as int) =~= args);
                }
            },
            Expression::Paragraph(s) => {
                push_str(out, "\n");
                push_str(out, s.as_str());
                push_str(out, "\n");
                proof {
                    reveal_strlit("\n");
                }
            },
            Expression::Header(s) => {
                let u = uppercase(s.as_str());
                push_header(out, u.as_str(), true);
            },
            Expression::Subheader(s) => {
                let u = uppercase(s.as_str());
                push_header(out, u.as_str(), false);
            },
            Expression::Subsubheader(s) => {
                push_str(out, "\n* ");
                push_str(out, s.as_str());
                push_str(out, "\n");
                proof {
                    reveal_strlit("\n* ");
                    reveal_strlit("\n");
                }
            },
            Expression::Null => {
                push_str(out, "Null");
                proof {
                    reveal_strlit("Null");
                }
            },
        }
        proof {
            assert(out@ =~= start + plain_text(self@));
        }
    }

    /// Writes the LaTeX form of this expression.
    pub fn push_latex(&self, out: &mut String, toplevel: bool)
        requires
            expr_wf(self@),
        ensures
            final(out)@ == old(out)@ + latex_text(self@, toplevel),
        decreases self,
    {
        let ghost start = out@;
        match self {
            Expression::Assignment { left, right } => {
                let id = latex_identifier(left.as_str());
                push_str(out, id.as_str());
                push_str(out, " := ");
                right.push_latex(out, true);
                proof {
                    reveal_strlit(" := ");
                }
            },
            Expression::Reassignment { left, right } => {
                let id = latex_identifier(left.as_str());
                push_str(out, id.as_str());
                push_str(out, " = ");
                right.push_latex(out, true);
                proof {
                    reveal_strlit(" = ");
                }
            },
            Expression::Float { value, dims } => push_quantity(out, value, dims, true),
            Expression::Identifier(s) => {
                let id = latex_identifier(s.as_str());
                push_str(out, id.as_str());
            },
            Expression::Symbolic(s) | Expression::FullSymbolic(s) => {
                push_str(out, s.as_str());
            },
            Expression::BinOp { left, oper, right } => {
                if !toplevel {
                    push_str(out, "(");
                }
                left.push_latex(out, false);
                let op = oper.latex();
                push_str(out, op.as_str());
                right.push_latex(out, false);
                if !toplevel {
                    push_str(out, ")");
                }
                proof {
                    reveal_strlit("(");
                    reveal_strlit(")");
                }
            },
            Expression::FnCall { name, arguments } => {
                let ghost args = exprs_view(arguments@);
                proof {
                    lemma_exprs_view(arguments@);
                    crate::expression::lemma_call_args_wf(name@, args);
                    reveal_strlit("sqrt");
                    assert("sqrt"@ =~= seq!['s', 'q', 'r', 't']);
                }
                if crate::text::same_text(name.as_str(), "sqrt") && arguments.len() == 1 {
                    proof {
                        vstd::std_specs::vec::axiom_vec_index_decreases(*arguments, 0);
                        assert(decreases_to!(*self => (*self)->FnCall_arguments));
                        assert(expr_wf(args[0]));
                    }
                    push_str(out, "\\sqrt{");
                    arguments[0].push_latex(out, true);
                    push_str(out, "}");
                    proof {
                        reveal_strlit("\\sqrt{");
                        reveal_strlit("}");
                    }
                } else {
                    let id = latex_identifier(name.as_str());
                    push_str(out, id.as_str());
                    push_str(out, "(");
                    let ghost mid = out@;
                    let mut i: usize = 0;
                    while i < arguments.len()
                        invariant
                            i <= arguments@.len(),
                            *self == (Expression::FnCall { name: *name, arguments: *arguments }),
                            args == exprs_view(arguments@),
                            args.len() == arguments@.len(),
                            forall|j: int|
                                0 <= j < args.len() ==> #[trigger] args[j] == arguments@[j]@,
                            forall|j: int| 0 <= j < args.len() ==> expr_wf(#[trigger] args[j]),
                            out@ == mid + latex_list(args.subrange(0, i as int)),
                        decreases arguments@.len() - i,
                    {
                        proof {
                            vstd::std_specs::vec::axiom_vec_index_decreases(*arguments, i as int);
                            assert(decreases_to!(*self => (*self)->FnCall_arguments));
                            assert(expr_wf(args[i as int]));
                        }
                        if i > 0 {
                            push_str(out, ", ");
                        }
                        arguments[i].push_latex(out, true);
                        proof {
                            reveal_strlit(", ");
                            let sub = args.subrange(0, i + 1);
                            assert(sub.drop_last() =~= args.subrange(0, i as int));
                            assert(sub.last() == args[i as int]);
                            assert(out@ =~= mid + latex_list(sub));
                        }
                        i += 1;
                    }
                    push_str(out, ")");
                    proof {
                        reveal_strlit("(");
                        reveal_strlit(")");
                        assert(args.subrange(0, args.len() as int) =~= args);
                    }
                }
            },
            Expression::Paragraph(s) => {
                push_str(out, "\n");
                push_str(out, s.as_str());
                push_str(out, "\\par\n");
                proof {
                    reveal_strlit("\n");
                    reveal_strlit("\\par\n");
                }
            },
            Expression::Header(s) => {
                push_str(out, "\n\\section{");
                push_str(out, s.as_str());
                push_str(out, "}\n");
                proof {
                    reveal_strlit("\n\\section{");
                    reveal_strlit("}\n");
                }
            },
            Expression::Subheader(s) => {
                push_str(out, "\n\\subsection{");
                push_str(out, s.as_str());
                push_str(out, "}\n");
                proof {
                    reveal_strlit("\n\\subsection{");
                    reveal_strlit("}\n");
                }
            },
            Expression::Subsubheader(s) => {
                push_str(out, "\n\\subsubsection{");
                push_str(out, s.as_str());
                push_str(out, "}\n");
                proof {
                    reveal_strlit("\n\\subsubsection{");
                    reveal_strlit("}\n");
                }
            },
            Expression::Null => {},
        }
        proof {
            assert(out@ =~= start + latex_text(self@, toplevel));
        }
    }

    /// The LaTeX form of this expression.
    pub fn latex(&self, toplevel: bool) -> (r: String)
        requires
            expr_wf(self@),
        ensures
            r@ == latex_text(self@, toplevel),
    {
        let mut out = String::new();
        self.push_latex(&mut out, toplevel);
        proof {
            assert(out@ =~= latex_text(self@, toplevel));
        }
        out
    }

    /// The plain-text form of this expression.
    pub fn format(&self) -> (r: String)
        requires
            expr_wf(self@),
        ensures
            r@ == plain_text(self@),
    {
        let mut out = String::new();
        self.push_plain(&mut out);
        proof {
            assert(out@ =~= plain_text(self@));
        }
        out
    }
}

/// Is the expression a document marker (a header or a paragraph)?
pub open spec fn is_marker(e: Expr) -> bool {
    e is Header || e is Subheader || e is Subsubheader || e is Paragraph
}

/// The output of one evaluated statement: nothing for `Null`; otherwise its
/// plain form and a line break, or in LaTeX a display-math block, document
/// markers standing outside math.
pub open spec fn statement_text(r: Expr, latex: bool) -> Seq<char> {
    if r is Null {
        Seq::empty()
    } else if !latex {
        plain_text(r) + seq!['\n']
    } else if is_marker(r) {
        seq!['\n'] + latex_text(r, true) + seq!['\n', '\n']
    } else {
        seq!['$', '$', '\n'] + latex_text(r, true) + seq!['\n', '$', '$', '\n']
    }
}

/// The output of evaluating statements in order under `env`, each with full
/// numeric resolution.
pub open spec fn evaluation_text(env: Bindings, es: Seq<Expr>, latex: bool) -> Seq<char>
    decreases es.len(),
{
    if es.len() == 0 {
        Seq::empty()
    } else {
        let (r, env1) = simplify_spec(env, es[0], Resolution::Numeric, fuel_of(env));
        statement_text(r, latex) + evaluation_text(env1, es.drop_first(), latex)
    }
}

/// The warnings of evaluating statements in order under `env`.
pub open spec fn evaluation_warnings(env: Bindings, es: Seq<Expr>) -> Seq<Warning>
    decreases es.len(),
{
    if es.len() == 0 {
        Seq::empty()
    } else {
        let (r, env1) = simplify_spec(env, es[0], Resolution::Numeric, fuel_of(env));
        simplify_warnings(env, es[0], Resolution::Numeric, fuel_of(env)) + evaluation_warnings(
            env1,
            es.drop_first(),
        )
    }
}

/// The bindings after evaluating statements in order under `env`.
pub open spec fn evaluation_bindings(env: Bindings, es: Seq<Expr>) -> Bindings
    decreases es.len(),
{
    if es.len() == 0 {
        env
    } else {
        let (r, env1) = simplify_spec(env, es[0], Resolution::Numeric, fuel_of(env));
        evaluation_bindings(env1, es.drop_first())
    }
}

impl Environment {
    fn evaluate_all(&mut self, expressions: &Vec<Expression>, latex: bool, warnings: &mut Vec<
        Error,
    >) -> (r: String)
        requires
            old(self).wf(),
            forall|i: int| 0 <= i < expressions@.len() ==> expr_wf(#[trigger] expressions@[i]@),
        ensures
            final(self).wf(),
            r@ == evaluation_text(old(self).bindings(), exprs_view(expressions@), latex),
            final(self).bindings() == evaluation_bindings(
                old(self).bindings(),
                exprs_view(expressions@),
            ),
            warnings_of(final(warnings)@) == warnings_of(old(warnings)@) + evaluation_warnings(
                old(self).bindings(),
                exprs_view(expressions@),
            ),
    {
        let ghost es = exprs_view(expressions@);
        proof {
            lemma_exprs_view(expressions@);
        }
        let mut out = String::new();
        let mut i: usize = 0;
        proof {
            assert(es.subrange(0, es.len() as int) =~= es);
            assert(out@ + evaluation_text(self.bindings(), es, latex) =~= evaluation_text(
                self.bindings(),
                es,
                latex,
            ));
            assert(warnings_of(warnings@) + evaluation_warnings(self.bindings(), es)
                =~= warnings_of(old(warnings)@) + evaluation_warnings(self.bindings(), es));
        }
        while i < expressions.len()
            invariant
                i <= expressions@.len(),
                self.wf(),
                es == exprs_view(expressions@),
                es.len() == expressions@.len(),
                forall|j: int| 0 <= j < es.len() ==> #[trigger] es[j] == expressions@[j]@,
                forall|j: int| 0 <= j < expressions@.len() ==> expr_wf(#[trigger] expressions@[j]@),
                out@ + evaluation_text(self.bindings(), es.subrange(i as int, es.len() as int), latex)
                    == evaluation_text(old(self).bindings(), es, latex),
                evaluation_bindings(self.bindings(), es.subrange(i as int, es.len() as int))
                    == evaluation_bindings(old(self).bindings(), es),
                warnings_of(warnings@) + evaluation_warnings(
                    self.bindings(),
                    es.subrange(i as int, es.len() as int),
                ) == warnings_of(old(warnings)@) + evaluation_warnings(old(self).bindings(), es),
            decreases expressions@.len() - i,
        {
            let ghost env = self.bindings();
            let ghost w = warnings_of(warnings@);
            let ghost rest = es.subrange(i as int, es.len() as int);
            let r = self.simplify(&expressions[i], Resolution::Numeric, warnings);
            proof {
                assert(rest[0] == es[i as int]);
                assert(rest.drop_first() =~= es.subrange(i + 1, es.len() as int));
            }
            let ghost before = out@;
            if !r.is_null() {
                if !latex {
                    r.push_plain(&mut out);
                    push_str(&mut out, "\n");
                } else if r.is_marker() {
                    push_str(&mut out, "\n");
                    r.push_latex(&mut out, true);
                    push_str(&mut out, "\n\n");
                } else {
                    push_str(&mut out, "$$\n");
                    r.push_latex(&mut out, true);
                    push_str(&mut out, "\n$$\n");
                }
            }
            proof {
                reveal_strlit("\n");
                reveal_strlit("\n\n");
                reveal_strlit("$$\n");
                reveal_strlit("\n$$\n");
                assert(out@ =~= before + statement_text(r@, latex));
                assert(warnings_of(warnings@) + evaluation_warnings(
                    self.bindings(),
                    es.subrange(i + 1, es.len() as int),
                ) =~= w + evaluation_warnings(env, rest));
            }
            i += 1;
        }
        proof {
            assert(es.subrange(i as int, es.len() as int) =~= Seq::<Expr>::empty());
            assert(warnings_of(warnings@) + Seq::<Warning>::empty() =~= warnings_of(warnings@));
        }
        out
    }

    /// Evaluates a series of statements in this environment and returns their
    /// plain-text output, one line per statement that does not evaluate to `Null`.
    pub fn evaluate(&mut self, expressions: &Vec<Expression>, warnings: &mut Vec<Error>) -> (r:
        String)
        requires
            old(self).wf(),
            forall|i: int| 0 <= i < expressions@.len() ==> expr_wf(#[trigger] expressions@[i]@),
        ensures
            final(self).wf(),
            r@ == evaluation_text(old(self).bindings(), exprs_view(expressions@), false),
            final(self).bindings() == evaluation_bindings(
                old(self).bindings(),
                exprs_view(expressions@),
            ),
            warnings_of(final(warnings)@) == warnings_of(old(warnings)@) + evaluation_warnings(
                old(self).bindings(),
                exprs_view(expressions@),
            ),
    {
        self.evaluate_all(expressions, false, warnings)
    }

    /// Evaluates a series of statements in this environment and returns their
    /// LaTeX output.
    pub fn latex_evaluate(&mut self, expressions: &Vec<Expression>, warnings: &mut Vec<Error>) -> (r:
        String)
        requires
            old(self).wf(),
            forall|i: int| 0 <= i < expressions@.len() ==> expr_wf(#[trigger] expressions@[i]@),
        ensures
            final(self).wf(),
            r@ == evaluation_text(old(self).bindings(), exprs_view(expressions@), true),
            final(self).bindings() == evaluation_bindings(
                old(self).bindings(),
                exprs_view(expressions@),
            ),
            warnings_of(final(warnings)@) == warnings_of(old(warnings)@) + evaluation_warnings(
                old(self).bindings(),
                exprs_view(expressions@),
            ),
    {
        self.evaluate_all(expressions, true, warnings)
    }
}

} // verus!
