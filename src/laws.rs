//! Properties that hold of every input: proved statements about the
//! tokenizer and the evaluator.

use vstd::prelude::*;
use crate::environment::{simplify_all_spec, simplify_all_warnings, simplify_spec, simplify_warnings, Bindings, Resolution};
use crate::error::Warning;
use crate::expression::{call, call_warnings, dims_fit, fold, fold_dims, fold_value, fold_warnings, half_power, BinaryOperation, Expr};
use crate::number::Ratio;
use crate::tokenizer::{is_whitespace, lemma_scan_advances, lemma_token_start, scan, scan_all};

verus! {

/// Where the tokens of `cs` from position `i` on begin and where scanning
/// resumes after each.
pub open spec fn token_spans(cs: Seq<char>, i: int) -> Seq<(int, int)>
    decreases cs.len() - i,
    when 0 <= i <= cs.len()
    via token_spans_decreases
{
    match scan(cs, i) {
        None => Seq::empty(),
        Some((_, _, s, n)) => seq![(s, n)] + token_spans(cs, n),
    }
}

#[via_fn]
proof fn token_spans_decreases(cs: Seq<char>, i: int) {
    lemma_scan_advances(cs, i);
}

/// Does one of the spans contain position `p`?
pub open spec fn covered(spans: Seq<(int, int)>, p: int) -> bool {
    exists|k: int| 0 <= k < spans.len() && #[trigger] spans[k].0 <= p < spans[k].1
}

/// Tokenizing is total: every character that is not whitespace lies in the
/// span of some token, and there is one token per span.
pub proof fn law_tokens_cover_text(cs: Seq<char>, i: int)
    requires
        0 <= i <= cs.len(),
    ensures
        token_spans(cs, i).len() == scan_all(cs, i).len(),
        forall|p: int|
            i <= p < cs.len() && !is_whitespace(#[trigger] cs[p]) ==> covered(
                token_spans(cs, i),
                p,
            ),
    decreases cs.len() - i,
{
    lemma_scan_advances(cs, i);
    lemma_token_start(cs, i);
    match scan(cs, i) {
        None => {},
        Some((c, t, s, n)) => {
            law_tokens_cover_text(cs, n);
            let spans = token_spans(cs, i);
            let rest = token_spans(cs, n);
            assert(spans == seq![(s, n)] + rest);
            assert forall|p: int|
                i <= p < cs.len() && !is_whitespace(#[trigger] cs[p]) implies covered(
                spans,
                p,
            ) by {
                if p < s {
                    assert(is_whitespace(cs[p]));
                } else if p < n {
                    assert(spans[0] == (s, n));
                    assert(spans[0].0 <= p < spans[0].1);
                } else {
                    assert(covered(rest, p));
                    let k = choose|k: int| 0 <= k < rest.len() && #[trigger] rest[k].0 <= p
                        < rest[k].1;
                    assert(spans[k + 1] == rest[k]);
                    assert(spans[k + 1].0 <= p < spans[k + 1].1);
                }
            }
        },
    }
}

/// Sums and differences of quantities with equal powers keep those powers;
/// products add powers and quotients subtract them, whenever the value is
/// defined and in range.
pub proof fn law_dimensions(
    env: Bindings,
    mode: Resolution,
    fuel: nat,
    op: BinaryOperation,
    a: Ratio,
    da: Seq<int>,
    b: Ratio,
    db: Seq<int>,
)
    requires
        da.len() == 6,
        db.len() == 6,
        dims_fit(da),
        dims_fit(db),
    ensures
        ({
            let (r, env1) = simplify_spec(
                env,
                Expr::BinOp(Box::new(Expr::Float(a, da)), op, Box::new(Expr::Float(b, db))),
                mode,
                fuel,
            );
            &&& env1 == env
            &&& (op == BinaryOperation::Add || op == BinaryOperation::Sub) && da == db
                && fold_value(op, a, b) is Some ==> r == Expr::Float(fold_value(op, a, b)->0, da)
            &&& op == BinaryOperation::Mul && fold_value(op, a, b) is Some && dims_fit(
                Seq::new(6, |i: int| da[i] + db[i]),
            ) ==> r == Expr::Float(fold_value(op, a, b)->0, Seq::new(6, |i: int| da[i] + db[i]))
            &&& op == BinaryOperation::Div && fold_value(op, a, b) is Some && dims_fit(
                Seq::new(6, |i: int| da[i] - db[i]),
            ) ==> r == Expr::Float(fold_value(op, a, b)->0, Seq::new(6, |i: int| da[i] - db[i]))
        }),
{
    let fa = Expr::Float(a, da);
    let fb = Expr::Float(b, db);
    assert(simplify_spec(env, fa, mode, fuel) == (fa, env));
    assert(simplify_spec(env, fb, mode, fuel) == (fb, env));
    let d = fold_dims(op, da, db);
    if (op == BinaryOperation::Add || op == BinaryOperation::Sub) && da == db {
        assert(d =~= da);
    }
    if op == BinaryOperation::Mul {
        assert(d =~= Seq::new(6, |i: int| da[i] + db[i]));
    }
    if op == BinaryOperation::Div {
        assert(d =~= Seq::new(6, |i: int| da[i] - db[i]));
    }
}

/// The square root of a quantity halves each of its powers, when the powers
/// are even, the value is not negative and the root is in range.
pub proof fn law_root_halves_dimensions(
    env: Bindings,
    mode: Resolution,
    fuel: nat,
    a: Ratio,
    da: Seq<int>,
)
    requires
        da.len() == 6,
        a.num >= 0,
        forall|i: int| 0 <= i < 6 ==> #[trigger] half_power(da[i]) is Some,
        Ratio::sqrt_spec(a) is Some,
    ensures
        ({
            let (r, env1) = simplify_spec(
                env,
                Expr::FnCall(seq!['s', 'q', 'r', 't'], seq![Expr::Float(a, da)]),
                mode,
                fuel,
            );
            &&& env1 == env
            &&& r == Expr::Float(Ratio::sqrt_spec(a)->0, Seq::new(6, |i: int| da[i] / 2))
        }),
{
    let args = seq![Expr::Float(a, da)];
    assert(args.drop_last() =~= Seq::<Expr>::empty());
    assert(simplify_all_spec(env, args.drop_last(), mode, fuel) == (Seq::<Expr>::empty(), env));
    assert(simplify_spec(env, args.last(), mode, fuel) == (Expr::Float(a, da), env));
    assert(Seq::<Expr>::empty().push(Expr::Float(a, da)) =~= args);
    assert(simplify_all_spec(env, args, mode, fuel) == (args, env));
}

/// Rebinding a name that is not bound evaluates to `Null` and leaves the
/// bindings as they were.
pub proof fn law_rebinding_unbound(
    env: Bindings,
    name: Seq<char>,
    right: Expr,
    mode: Resolution,
    fuel: nat,
)
    requires
        !env.contains_key(name),
    ensures
        simplify_spec(env, Expr::Reassignment(name, Box::new(right)), mode, fuel) == (
            Expr::Null,
            env,
        ),
{
}

/// Expressions without bindings, rebindings or symbolic references.
pub open spec fn is_plain(e: Expr) -> bool
    decreases e,
{
    match e {
        Expr::Assignment(_, _) | Expr::Reassignment(_, _) | Expr::Symbolic(_)
        | Expr::FullSymbolic(_) => false,
        Expr::BinOp(l, _, r) => is_plain(*l) && is_plain(*r),
        Expr::FnCall(_, args) => all_plain(args),
        _ => true,
    }
}

pub open spec fn all_plain(es: Seq<Expr>) -> bool
    decreases es,
{
    if es.len() == 0 {
        true
    } else {
        all_plain(es.drop_last()) && is_plain(es.last())
    }
}

/// Every bound expression is plain.
pub open spec fn plain_bindings(env: Bindings) -> bool {
    forall|k: Seq<char>| #[trigger] env.contains_key(k) ==> is_plain(env[k])
}

/// Expressions that evaluation under `mode` leaves as they are: numbers,
/// document markers, `Null`, names when names are not resolved, and
/// operations and calls that do not fold any further.
pub open spec fn is_normal(e: Expr, mode: Resolution) -> bool
    decreases e,
{
    match e {
        Expr::Float(_, _) | Expr::Header(_) | Expr::Subheader(_) | Expr::Subsubheader(_)
        | Expr::Paragraph(_) | Expr::Null => true,
        Expr::Identifier(_) => mode == Resolution::NoResolve,
        Expr::BinOp(l, op, r) => is_normal(*l, mode) && is_normal(*r, mode) && fold(op, *l, *r)
            == e,
        Expr::FnCall(name, args) => all_normal(args, mode) && call(name, args) == e,
        _ => false,
    }
}

pub open spec fn all_normal(es: Seq<Expr>, mode: Resolution) -> bool
    decreases es,
{
    if es.len() == 0 {
        true
    } else {
        all_normal(es.drop_last(), mode) && is_normal(es.last(), mode)
    }
}

/// Evaluating a normal expression gives it back and binds nothing.
pub proof fn lemma_normal_is_fixed(env: Bindings, e: Expr, mode: Resolution, fuel: nat)
    requires
        is_normal(e, mode),
    ensures
        simplify_spec(env, e, mode, fuel) == (e, env),
    decreases e, 0nat,
{
    match e {
        Expr::BinOp(l, op, r) => {
            lemma_normal_is_fixed(env, *l, mode, fuel);
            lemma_normal_is_fixed(env, *r, mode, fuel);
        },
        Expr::FnCall(name, args) => {
            lemma_all_normal_fixed(env, args, mode, fuel);
        },
        _ => {},
    }
}

pub proof fn lemma_all_normal_fixed(env: Bindings, es: Seq<Expr>, mode: Resolution, fuel: nat)
    requires
        all_normal(es, mode),
    ensures
        simplify_all_spec(env, es, mode, fuel) == (es, env),
    decreases es, 1nat,
{
    if es.len() > 0 {
        lemma_all_normal_fixed(env, es.drop_last(), mode, fuel);
        lemma_normal_is_fixed(env, es.last(), mode, fuel);
        assert(es.drop_last().push(es.last()) =~= es);
    }
}

/// Evaluating a plain expression, numerically or without resolving names,
/// under plain bindings binds nothing and gives a plain normal form.
pub proof fn lemma_plain_normalizes(env: Bindings, e: Expr, mode: Resolution, fuel: nat)
    requires
        is_plain(e),
        plain_bindings(env),
        mode == Resolution::Numeric || mode == Resolution::NoResolve,
    ensures
        ({
            let (r, env1) = simplify_spec(env, e, mode, fuel);
            env1 == env && is_normal(r, mode) && is_plain(r)
        }),
    decreases fuel, e, 0nat,
{
    match e {
        Expr::Identifier(s) => {
            if mode == Resolution::Numeric && env.contains_key(s) && fuel > 0 {
                lemma_plain_normalizes(env, env[s], mode, (fuel - 1) as nat);
            }
        },
        Expr::BinOp(l, op, r) => {
            lemma_plain_normalizes(env, *l, mode, fuel);
            lemma_plain_normalizes(env, *r, mode, fuel);
            let (a, _) = simplify_spec(env, *l, mode, fuel);
            let (b, _) = simplify_spec(env, *r, mode, fuel);
            lemma_fold_normal(op, a, b, mode);
        },
        Expr::FnCall(name, args) => {
            lemma_all_plain_normalize(env, args, mode, fuel);
            let (vs, _) = simplify_all_spec(env, args, mode, fuel);
            lemma_call_normal(name, vs, mode);
        },
        _ => {},
    }
}

pub proof fn lemma_all_plain_normalize(env: Bindings, es: Seq<Expr>, mode: Resolution, fuel: nat)
    requires
        all_plain(es),
        plain_bindings(env),
        mode == Resolution::Numeric || mode == Resolution::NoResolve,
    ensures
        ({
            let (vs, env1) = simplify_all_spec(env, es, mode, fuel);
            env1 == env && all_normal(vs, mode) && all_plain(vs) && vs.len() == es.len()
        }),
    decreases fuel, es, 1nat,
{
    if es.len() > 0 {
        lemma_all_plain_normalize(env, es.drop_last(), mode, fuel);
        lemma_plain_normalizes(env, es.last(), mode, fuel);
        let (vs, _) = simplify_all_spec(env, es.drop_last(), mode, fuel);
        let (v, _) = simplify_spec(env, es.last(), mode, fuel);
        assert(vs.push(v).drop_last() =~= vs);
    }
}

proof fn lemma_fold_normal(op: BinaryOperation, a: Expr, b: Expr, mode: Resolution)
    requires
        is_normal(a, mode),
        is_normal(b, mode),
        is_plain(a),
        is_plain(b),
    ensures
        is_normal(fold(op, a, b), mode),
        is_plain(fold(op, a, b)),
{
    let r = fold(op, a, b);
    if r is BinOp {
        assert(r == Expr::BinOp(Box::new(a), op, Box::new(b)));
    }
}

proof fn lemma_call_normal(name: Seq<char>, vs: Seq<Expr>, mode: Resolution)
    requires
        all_normal(vs, mode),
        all_plain(vs),
    ensures
        is_normal(call(name, vs), mode),
        is_plain(call(name, vs)),
{
    let r = call(name, vs);
    if r is FnCall {
        if name == seq!['s', 'q', 'r', 't'] {
            assert(r == Expr::FnCall(seq!['s', 'q', 'r', 't'], vs));
        } else {
            assert(r == Expr::FnCall(name, vs));
        }
    }
}

/// Evaluating twice gives what evaluating once gives: for a plain
/// expression evaluated numerically, and for a binding `let x = e` of a
/// plain expression, under bindings that are all plain (as every binding of
/// such statements is); the bindings do not change the second time either.
pub proof fn law_evaluation_idempotent(env: Bindings, e: Expr, fuel1: nat, fuel2: nat)
    requires
        plain_bindings(env),
        is_plain(e) || (e is Assignment && is_plain(*e->Assignment_1)),
    ensures
        ({
            let (r, env1) = simplify_spec(env, e, Resolution::Numeric, fuel1);
            simplify_spec(env1, r, Resolution::Numeric, fuel2) == (r, env1)
        }),
{
    if is_plain(e) {
        lemma_plain_normalizes(env, e, Resolution::Numeric, fuel1);
        let (r, env1) = simplify_spec(env, e, Resolution::Numeric, fuel1);
        lemma_normal_is_fixed(env1, r, Resolution::Numeric, fuel2);
    } else {
        let name = e->Assignment_0;
        let right = *e->Assignment_1;
        lemma_plain_normalizes(env, right, Resolution::NoResolve, fuel1);
        let (v, _) = simplify_spec(env, right, Resolution::NoResolve, fuel1);
        let env1 = env.insert(name, v);
        lemma_normal_is_fixed(env1, v, Resolution::NoResolve, fuel2);
        assert(env1.insert(name, v) =~= env1);
    }
}

/// No substitution chain ran out of fuel: no cyclic-definition warning.
pub open spec fn no_cycle(ws: Seq<Warning>) -> bool {
    forall|i: int| 0 <= i < ws.len() ==> !(#[trigger] ws[i] is CyclicDefinition)
}

proof fn lemma_no_cycle_split(a: Seq<Warning>, b: Seq<Warning>)
    requires
        no_cycle(a + b),
    ensures
        no_cycle(a),
        no_cycle(b),
{
    assert forall|i: int| 0 <= i < a.len() implies !(#[trigger] a[i] is CyclicDefinition) by {
        assert((a + b)[i] == a[i]);
    }
    assert forall|i: int| 0 <= i < b.len() implies !(#[trigger] b[i] is CyclicDefinition) by {
        assert((a + b)[a.len() + i] == b[i]);
    }
}

/// More fuel changes nothing once evaluation did not run out of it: when
/// evaluating with `f` reports no cyclic definition, evaluating with any
/// `g >= f` gives the same result, bindings and warnings.
pub proof fn law_enough_fuel(env: Bindings, e: Expr, mode: Resolution, f: nat, g: nat)
    requires
        f <= g,
        no_cycle(simplify_warnings(env, e, mode, f)),
    ensures
        simplify_spec(env, e, mode, g) == simplify_spec(env, e, mode, f),
        simplify_warnings(env, e, mode, g) == simplify_warnings(env, e, mode, f),
    decreases f, e, 0nat,
{
    let w = simplify_warnings(env, e, mode, f);
    match e {
        Expr::Assignment(name, right) => {
            law_enough_fuel(env, *right, Resolution::NoResolve, f, g);
        },
        Expr::Reassignment(name, right) => {
            if env.contains_key(name) {
                law_enough_fuel(env, *right, Resolution::NoResolve, f, g);
            }
        },
        Expr::Identifier(s) => {
            if mode != Resolution::NoResolve && env.contains_key(s) && !(mode
                == Resolution::SymbolsOnly && env[s] is Float) {
                if f == 0 {
                    assert(w[0] is CyclicDefinition);
                } else {
                    law_enough_fuel(env, env[s], mode, (f - 1) as nat, (g - 1) as nat);
                }
            }
        },
        Expr::Symbolic(s) => {
            if env.contains_key(s) {
                if f == 0 {
                    assert(w[0] is CyclicDefinition);
                } else {
                    law_enough_fuel(env, env[s], Resolution::NoResolve, (f - 1) as nat, (g - 1) as nat);
                }
            }
        },
        Expr::FullSymbolic(s) => {
            if env.contains_key(s) {
                if f == 0 {
                    assert(w[0] is CyclicDefinition);
                } else {
                    law_enough_fuel(env, env[s], Resolution::SymbolsOnly, (f - 1) as nat, (g - 1) as nat);
                }
            }
        },
        Expr::BinOp(l, op, r) => {
            let (a, env1) = simplify_spec(env, *l, mode, f);
            let (b, _) = simplify_spec(env1, *r, mode, f);
            lemma_no_cycle_split(
                simplify_warnings(env, *l, mode, f) + simplify_warnings(env1, *r, mode, f),
                fold_warnings(op, a, b),
            );
            lemma_no_cycle_split(
                simplify_warnings(env, *l, mode, f),
                simplify_warnings(env1, *r, mode, f),
            );
            law_enough_fuel(env, *l, mode, f, g);
            law_enough_fuel(env1, *r, mode, f, g);
        },
        Expr::FnCall(name, args) => {
            let (vs, _) = simplify_all_spec(env, args, mode, f);
            lemma_no_cycle_split(simplify_all_warnings(env, args, mode, f), call_warnings(name, vs));
            lemma_all_enough_fuel(env, args, mode, f, g);
        },
        _ => {},
    }
}

proof fn lemma_all_enough_fuel(env: Bindings, es: Seq<Expr>, mode: Resolution, f: nat, g: nat)
    requires
        f <= g,
        no_cycle(simplify_all_warnings(env, es, mode, f)),
    ensures
        simplify_all_spec(env, es, mode, g) == simplify_all_spec(env, es, mode, f),
        simplify_all_warnings(env, es, mode, g) == simplify_all_warnings(env, es, mode, f),
    decreases f, es, 1nat,
{
    if es.len() > 0 {
        let (vs, env1) = simplify_all_spec(env, es.drop_last(), mode, f);
        lemma_no_cycle_split(
            simplify_all_warnings(env, es.drop_last(), mode, f),
            simplify_warnings(env1, es.last(), mode, f),
        );
        lemma_all_enough_fuel(env, es.drop_last(), mode, f, g);
        law_enough_fuel(env1, es.last(), mode, f, g);
    }
}

} // verus!
