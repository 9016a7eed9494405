//! The environment of bindings and the evaluator of the Carlo language.

use vstd::prelude::*;
use crate::error::{report, warnings_of, Error, Warning};
use crate::expression::{call, call_warnings, eval_call, fold_warnings, expr_wf, exprs_view, fold, lemma_exprs_view, Expr, Expression};
use crate::text::same_text;

verus! {

/// How far evaluation resolves names.
#[derive(Clone, Copy, PartialEq, Eq, Structural, Debug)]
pub enum Resolution {
    /// Names stay as they are.
    NoResolve,
    /// Names bound to expressions other than numbers are replaced, recursively.
    SymbolsOnly,
    /// Every name is replaced by the value of its binding.
    Numeric,
}

/// A map from names to expressions, as the contracts see an environment.
pub type Bindings = Map<Seq<char>, Expr>;

/// Evaluates `e` under `env` with at most `fuel` nested substitutions of a
/// binding; gives the result and the environment afterwards.
pub open spec fn simplify_spec(env: Bindings, e: Expr, mode: Resolution, fuel: nat) -> (
    Expr,
    Bindings,
)
    decreases fuel, e, 0nat,
{
    match e {
        Expr::Assignment(name, right) => {
            let (v, env1) = simplify_spec(env, *right, Resolution::NoResolve, fuel);
            (Expr::Assignment(name, Box::new(v)), env1.insert(name, v))
        },
        Expr::Reassignment(name, right) => if !env.contains_key(name) {
            (Expr::Null, env)
        } else {
            let (v, env1) = simplify_spec(env, *right, Resolution::NoResolve, fuel);
            (Expr::Reassignment(name, Box::new(v)), env1.insert(name, v))
        },
        Expr::Identifier(s) => match mode {
            Resolution::NoResolve => (e, env),
            Resolution::SymbolsOnly => if !env.contains_key(s) || env[s] is Float {
                (e, env)
            } else if fuel == 0 {
                (Expr::Null, env)
            } else {
                simplify_spec(env, env[s], Resolution::SymbolsOnly, (fuel - 1) as nat)
            },
            Resolution::Numeric => if !env.contains_key(s) || fuel == 0 {
                (Expr::Null, env)
            } else {
                simplify_spec(env, env[s], Resolution::Numeric, (fuel - 1) as nat)
            },
        },
        Expr::Symbolic(s) => if !env.contains_key(s) || fuel == 0 {
            (Expr::Null, env)
        } else {
            let (v, env1) = simplify_spec(env, env[s], Resolution::NoResolve, (fuel - 1) as nat);
            (Expr::Reassignment(s, Box::new(v)), env1)
        },
        Expr::FullSymbolic(s) => if !env.contains_key(s) || fuel == 0 {
            (Expr::Null, env)
        } else {
            let (v, env1) = simplify_spec(env, env[s], Resolution::SymbolsOnly, (fuel - 1) as nat);
            (Expr::Reassignment(s, Box::new(v)), env1)
        },
        Expr::BinOp(l, op, r) => {
            let (a, env1) = simplify_spec(env, *l, mode, fuel);
            let (b, env2) = simplify_spec(env1, *r, mode, fuel);
            (fold(op, a, b), env2)
        },
        Expr::FnCall(name, args) => {
            let (vs, env1) = simplify_all_spec(env, args, mode, fuel);
            (call(name, vs), env1)
        },
        _ => (e, env),
    }
}

/// Evaluates a sequence of expressions in order, threading the environment.
pub open spec fn simplify_all_spec(env: Bindings, es: Seq<Expr>, mode: Resolution, fuel: nat) -> (
    Seq<Expr>,
    Bindings,
)
    decreases fuel, es, 1nat,
{
    if es.len() == 0 {
        (Seq::empty(), env)
    } else {
        let (vs, env1) = simplify_all_spec(env, es.drop_last(), mode, fuel);
        let (v, env2) = simplify_spec(env1, es.last(), mode, fuel);
        (vs.push(v), env2)
    }
}

/// The warnings that evaluating `e` under `env` records, in order; they
/// follow the evaluation of `simplify_spec` step by step.
pub open spec fn simplify_warnings(env: Bindings, e: Expr, mode: Resolution, fuel: nat) -> Seq<
    Warning,
>
    decreases fuel, e, 0nat,
{
    match e {
        Expr::Assignment(name, right) => simplify_warnings(env, *right, Resolution::NoResolve, fuel),
        Expr::Reassignment(name, right) => if !env.contains_key(name) {
            seq![Warning::UndeclaredVariable(name)]
        } else {
            simplify_warnings(env, *right, Resolution::NoResolve, fuel)
        },
        Expr::Identifier(s) => match mode {
            Resolution::NoResolve => Seq::empty(),
            Resolution::SymbolsOnly => if !env.contains_key(s) || env[s] is Float {
                Seq::empty()
            } else if fuel == 0 {
                seq![Warning::CyclicDefinition(s)]
            } else {
                simplify_warnings(env, env[s], Resolution::SymbolsOnly, (fuel - 1) as nat)
            },
            Resolution::Numeric => if !env.contains_key(s) {
                seq![Warning::UndeclaredVariable(s)]
            } else if fuel == 0 {
                seq![Warning::CyclicDefinition(s)]
            } else {
                simplify_warnings(env, env[s], Resolution::Numeric, (fuel - 1) as nat)
            },
        },
        Expr::Symbolic(s) => if !env.contains_key(s) {
            seq![Warning::UndeclaredVariable(s)]
        } else if fuel == 0 {
            seq![Warning::CyclicDefinition(s)]
        } else {
            simplify_warnings(env, env[s], Resolution::NoResolve, (fuel - 1) as nat)
        },
        Expr::FullSymbolic(s) => if !env.contains_key(s) {
            seq![Warning::UndeclaredVariable(s)]
        } else if fuel == 0 {
            seq![Warning::CyclicDefinition(s)]
        } else {
            simplify_warnings(env, env[s], Resolution::SymbolsOnly, (fuel - 1) as nat)
        },
        Expr::BinOp(l, op, r) => {
            let (a, env1) = simplify_spec(env, *l, mode, fuel);
            let (b, _) = simplify_spec(env1, *r, mode, fuel);
            simplify_warnings(env, *l, mode, fuel) + simplify_warnings(env1, *r, mode, fuel)
                + fold_warnings(op, a, b)
        },
        Expr::FnCall(name, args) => {
            let (vs, _) = simplify_all_spec(env, args, mode, fuel);
            simplify_all_warnings(env, args, mode, fuel) + call_warnings(name, vs)
        },
        _ => Seq::empty(),
    }
}

/// The warnings of evaluating a sequence of expressions in order.
pub open spec fn simplify_all_warnings(env: Bindings, es: Seq<Expr>, mode: Resolution, fuel: nat) -> Seq<
    Warning,
>
    decreases fuel, es, 1nat,
{
    if es.len() == 0 {
        Seq::empty()
    } else {
        let (vs, env1) = simplify_all_spec(env, es.drop_last(), mode, fuel);
        simplify_all_warnings(env, es.drop_last(), mode, fuel) + simplify_warnings(
            env1,
            es.last(),
            mode,
            fuel,
        )
    }
}

/// The most nested substitutions that evaluation under `env` allows: one
/// more than the number of names bound.
pub open spec fn fuel_of(env: Bindings) -> nat {
    if env.dom().len() < u64::MAX {
        env.dom().len() + 1
    } else {
        env.dom().len()
    }
}

/// The first index of `k` in `names` from `i` on, or -1.
pub open spec fn find_name(names: Seq<Seq<char>>, k: Seq<char>, i: int) -> int
    decreases names.len() - i,
{
    if i < 0 || i >= names.len() {
        -1
    } else if names[i] == k {
        i
    } else {
        find_name(names, k, i + 1)
    }
}

proof fn lemma_find_name(names: Seq<Seq<char>>, k: Seq<char>, i: int)
    requires
        0 <= i <= names.len(),
    ensures
        find_name(names, k, i) == -1 || (i <= find_name(names, k, i) < names.len() && names[find_name(
            names,
            k,
            i,
        )] == k),
        find_name(names, k, i) == -1 ==> forall|j: int| i <= j < names.len() ==> names[j] != k,
        forall|j: int| i <= j < find_name(names, k, i) ==> names[j] != k,
    decreases names.len() - i,
{
    if i < names.len() && names[i] != k {
        lemma_find_name(names, k, i + 1);
    }
}

proof fn lemma_find_name_push(names: Seq<Seq<char>>, x: Seq<char>, k: Seq<char>)
    ensures
        find_name(names, k, 0) >= 0 ==> find_name(names.push(x), k, 0) == find_name(names, k, 0),
        find_name(names, k, 0) < 0 && k == x ==> find_name(names.push(x), k, 0) == names.len(),
        find_name(names, k, 0) < 0 && k != x ==> find_name(names.push(x), k, 0) == -1,
{
    lemma_find_name_push_from(names, x, k, 0);
}

proof fn lemma_find_name_push_from(names: Seq<Seq<char>>, x: Seq<char>, k: Seq<char>, i: int)
    requires
        0 <= i <= names.len(),
    ensures
        find_name(names, k, i) >= 0 ==> find_name(names.push(x), k, i) == find_name(names, k, i),
        find_name(names, k, i) < 0 && k == x ==> find_name(names.push(x), k, i) == names.len(),
        find_name(names, k, i) < 0 && k != x ==> find_name(names.push(x), k, i) == -1,
    decreases names.len() - i,
{
    let p = names.push(x);
    if i == names.len() {
        assert(p[i] == x);
        if k != x {
            assert(find_name(p, k, i + 1) == -1);
        }
    } else {
        assert(p[i] == names[i]);
        lemma_find_name_push_from(names, x, k, i + 1);
    }
}

/// The environment: bindings from names to expressions, the first binding
/// of a name being the one that counts.
pub struct Environment {
    names: Vec<String>,
    values: Vec<Expression>,
}

impl Environment {
    pub closed spec fn name_views(&self) -> Seq<Seq<char>> {
        self.names@.map_values(|s: String| s@)
    }

    /// The bindings of this environment.
    pub closed spec fn bindings(&self) -> Bindings {
        Map::new(
            |k: Seq<char>| find_name(self.name_views(), k, 0) >= 0,
            |k: Seq<char>| self.values@[find_name(self.name_views(), k, 0)]@,
        )
    }

    pub closed spec fn wf(&self) -> bool {
        &&& self.names@.len() == self.values@.len()
        &&& self.name_views().no_duplicates()
        &&& forall|i: int| 0 <= i < self.values@.len() ==> expr_wf(#[trigger] self.values@[i]@)
    }

    /// The number of names bound.
    pub closed spec fn size(&self) -> nat {
        self.names@.len()
    }

    /// Constructs a new, empty environment.
    pub fn new() -> (r: Environment)
        ensures
            r.wf(),
            r.bindings() == Map::<Seq<char>, Expr>::empty(),
    {
        let r = Environment { names: Vec::new(), values: Vec::new() };
        proof {
            assert(r.bindings() =~= Map::<Seq<char>, Expr>::empty());
            assert(r.name_views() =~= Seq::<Seq<char>>::empty());
        }
        r
    }

    /// The number of names bound is the size of the map of bindings.
    pub proof fn lemma_size(&self)
        requires
            self.wf(),
        ensures
            self.size() == self.bindings().dom().len(),
    {
        let nv = self.name_views();
        assert forall|k: Seq<char>| #[trigger] self.bindings().dom().contains(k) <==> nv.to_set().contains(
            k,
        ) by {
            lemma_find_name(nv, k, 0);
            if nv.contains(k) {
                let j = choose|j: int| 0 <= j < nv.len() && nv[j] == k;
                assert(nv[j] == k);
            }
        }
        assert(self.bindings().dom() =~= nv.to_set());
        nv.unique_seq_to_set();
    }

    /// Every bound expression is well formed.
    pub proof fn lemma_wf_values(&self)
        requires
            self.wf(),
        ensures
            forall|k: Seq<char>| #[trigger]
                self.bindings().contains_key(k) ==> expr_wf(self.bindings()[k]),
    {
        assert forall|k: Seq<char>| #[trigger] self.bindings().contains_key(k) implies expr_wf(
            self.bindings()[k],
        ) by {
            lemma_find_name(self.name_views(), k, 0);
        }
    }

    fn index_of(&self, name: &String) -> (r: Option<usize>)
        requires
            self.wf(),
        ensures
            match r {
                Some(i) => i < self.values@.len() && i as int == find_name(
                    self.name_views(),
                    name@,
                    0,
                ),
                None => find_name(self.name_views(), name@, 0) == -1,
            },
    {
        let mut i: usize = 0;
        while i < self.names.len()
            invariant
                i <= self.names@.len(),
                self.wf(),
                find_name(self.name_views(), name@, i as int) == find_name(
                    self.name_views(),
                    name@,
                    0,
                ),
            decreases self.names@.len() - i,
        {
            if same_text(self.names[i].as_str(), name.as_str()) {
                return Some(i);
            }
            i += 1;
        }
        None
    }

    /// Registers a binding, replacing any earlier binding of the name.
    pub fn register(&mut self, name: &String, value: Expression)
        requires
            old(self).wf(),
            expr_wf(value@),
        ensures
            final(self).wf(),
            final(self).bindings() == old(self).bindings().insert(name@, value@),
            final(self).size() <= old(self).size() + 1,
    {
        let ghost old_names = self.name_views();
        let ghost vv = value@;
        match self.index_of(name) {
            Some(i) => {
                self.values.set(i, value);
                proof {
                    assert(self.name_views() =~= old_names);
                    lemma_find_name(old_names, name@, 0);
                    assert forall|k: Seq<char>| #[trigger]
                        self.bindings().contains_key(k) implies self.bindings()[k] == old(
                        self,
                    ).bindings().insert(name@, vv)[k] by {
                        lemma_find_name(old_names, k, 0);
                    }
                    assert(self.bindings() =~= old(self).bindings().insert(name@, vv));
                }
            },
            None => {
                self.names.push(name.clone());
                self.values.push(value);
                proof {
                    assert(self.name_views() =~= old_names.push(name@));
                    lemma_find_name(old_names, name@, 0);
                    assert forall|a: int, b: int|
                        0 <= a < b < self.name_views().len() implies self.name_views()[a]
                        != self.name_views()[b] by {
                        if b == old_names.len() {
                            assert(self.name_views()[b] == name@);
                            assert(old_names[a] != name@);
                        } else {
                            assert(old_names[a] != old_names[b]);
                        }
                    }
                    assert forall|k: Seq<char>|
                        #![auto]
                        self.bindings().contains_key(k) == old(self).bindings().insert(
                            name@,
                            vv,
                        ).contains_key(k) by {
                        lemma_find_name_push(old_names, name@, k);
                    }
                    assert forall|k: Seq<char>| #[trigger]
                        self.bindings().contains_key(k) implies self.bindings()[k] == old(
                        self,
                    ).bindings().insert(name@, vv)[k] by {
                        lemma_find_name_push(old_names, name@, k);
                        lemma_find_name(old_names, k, 0);
                    }
                    assert(self.bindings() =~= old(self).bindings().insert(name@, vv));
                }
            },
        }
    }

    /// Looks up a name.
    pub fn lookup(&self, name: &String) -> (r: Option<Expression>)
        requires
            self.wf(),
        ensures
            r is Some <==> self.bindings().contains_key(name@),
            r is Some ==> r->0@ == self.bindings()[name@],
    {
        match self.index_of(name) {
            Some(i) => Some(self.values[i].duplicate()),
            None => None,
        }
    }

    /// The most substitutions that a chain of bindings can need without
    /// coming back to a name: one more than the number of names bound.
    pub fn fuel(&self) -> (r: u64)
        requires
            self.wf(),
        ensures
            r == fuel_of(self.bindings()),
    {
        proof {
            self.lemma_size();
        }
        if (self.names.len() as u64) < u64::MAX {
            self.names.len() as u64 + 1
        } else {
            self.names.len() as u64
        }
    }

    /// Simplifies an expression in this environment under the given mode,
    /// with at most `fuel` nested substitutions; a deeper chain is reported
    /// as a cyclic definition.
    #[verifier::rlimit(100)]
    #[verifier::spinoff_prover]
    pub fn simplify_with(
        &mut self,
        expr: &Expression,
        mode: Resolution,
        fuel: u64,
        warnings: &mut Vec<Error>,
    ) -> (r: Expression)
        requires
            old(self).wf(),
            expr_wf(expr@),
        ensures
            final(self).wf(),
            expr_wf(r@),
            (r@, final(self).bindings()) == simplify_spec(
                old(self).bindings(),
                expr@,
                mode,
                fuel as nat,
            ),
            warnings_of(final(warnings)@) == warnings_of(old(warnings)@) + simplify_warnings(
                old(self).bindings(),
                expr@,
                mode,
                fuel as nat,
            ),
        decreases fuel, expr, 0nat,
    {
        proof {
            self.lemma_wf_values();
        }
        let ghost w0 = warnings_of(warnings@);
        let ghost env = self.bindings();
        match expr {
            Expression::Assignment { left, right } => {
                let v = self.simplify_with(right, Resolution::NoResolve, fuel, warnings);
                let stored = v.duplicate();
                self.register(left, stored);
                Expression::Assignment { left: left.clone(), right: Box::new(v) }
            },
            Expression::Reassignment { left, right } => {
                if self.index_of(left).is_none() {
                    report(warnings, Error::UndeclaredVariable(left.clone()));
                    return Expression::Null;
                }
                let v = self.simplify_with(right, Resolution::NoResolve, fuel, warnings);
                let stored = v.duplicate();
                self.register(left, stored);
                Expression::Reassignment { left: left.clone(), right: Box::new(v) }
            },
            Expression::Identifier(s) => {
                if mode == Resolution::NoResolve {
                    return expr.duplicate();
                }
                let bound = match self.lookup(s) {
                    Some(b) => b,
                    None => {
                        if mode == Resolution::Numeric {
                            report(warnings, Error::UndeclaredVariable(s.clone()));
                            return Expression::Null;
                        }
                        return expr.duplicate();
                    },
                };
                if mode == Resolution::SymbolsOnly && bound.is_numeric() {
                    return expr.duplicate();
                }
                if fuel == 0 {
                    report(warnings, Error::CyclicDefinition(s.clone()));
                    return Expression::Null;
                }
                self.simplify_with(&bound, mode, fuel - 1, warnings)
            },
            Expression::Symbolic(s) | Expression::FullSymbolic(s) => {
                // `&s` and `!s`: the binding of `s`, simplified one level or
                // through symbolic steps, shown as a rebinding of `s`
                let sub = if expr.is_symbolic() {
                    Resolution::NoResolve
                } else {
                    Resolution::SymbolsOnly
                };
                let bound = match self.lookup(s) {
                    Some(b) => b,
                    None => {
                        report(warnings, Error::UndeclaredVariable(s.clone()));
                        return Expression::Null;
                    },
                };
                if fuel == 0 {
                    report(warnings, Error::CyclicDefinition(s.clone()));
                    return Expression::Null;
                }
                let v = self.simplify_with(&bound, sub, fuel - 1, warnings);
                Expression::Reassignment { left: s.clone(), right: Box::new(v) }
            },
            Expression::BinOp { left, oper, right } => {
                let a = self.simplify_with(left, mode, fuel, warnings);
                let b = self.simplify_with(right, mode, fuel, warnings);
                let r = oper.simplify(a, b, warnings);
                proof {
                    assert(warnings_of(warnings@) =~= w0 + simplify_warnings(
                        env,
                        expr@,
                        mode,
                        fuel as nat,
                    ));
                }
                r
            },
            Expression::FnCall { name, arguments } => {
                let ghost env0 = self.bindings();
                let mut values: Vec<Expression> = Vec::new();
                let mut i: usize = 0;
                while i < arguments.len()
                    invariant
                        i <= arguments@.len(),
                        self.wf(),
                        expr_wf(expr@),
                        *expr == (Expression::FnCall { name: *name, arguments: *arguments }),
                        forall|j: int| 0 <= j < values@.len() ==> expr_wf(#[trigger] values@[j]@),
                        (exprs_view(values@), self.bindings()) == simplify_all_spec(
                            env0,
                            exprs_view(arguments@).subrange(0, i as int),
                            mode,
                            fuel as nat,
                        ),
                        env0 == env,
                        warnings_of(warnings@) == w0 + simplify_all_warnings(
                            env0,
                            exprs_view(arguments@).subrange(0, i as int),
                            mode,
                            fuel as nat,
                        ),
                    decreases arguments@.len() - i,
                {
                    proof {
                        vstd::std_specs::vec::axiom_vec_index_decreases(*arguments, i as int);
                        assert(decreases_to!(*expr => (*expr)->FnCall_arguments));
                        lemma_exprs_view(arguments@);
                        assert(expr@ == Expr::FnCall(name@, exprs_view(arguments@)));
                        assert(expr_wf(Expr::FnCall(name@, exprs_view(arguments@))));
                        crate::expression::lemma_call_args_wf(name@, exprs_view(arguments@));
                        let args = exprs_view(arguments@);
                        assert(0 <= i < args.len());
                        assert(expr_wf(args[i as int]));
                    }
                    let ghost before = values@;
                    let ghost env_before = self.bindings();
                    let v = self.simplify_with(&arguments[i], mode, fuel, warnings);
                    values.push(v);
                    proof {
                        let es = exprs_view(arguments@).subrange(0, i + 1);
                        assert(es.drop_last() =~= exprs_view(arguments@).subrange(0, i as int));
                        assert(es.last() == arguments@[i as int]@);
                        assert(values@.drop_last() =~= before);
                        assert(exprs_view(values@) == exprs_view(before).push(v@));
                        assert(warnings_of(warnings@) =~= w0 + simplify_all_warnings(
                            env0,
                            es,
                            mode,
                            fuel as nat,
                        ));
                    }
                    i += 1;
                }
                proof {
                    lemma_exprs_view(arguments@);
                    assert(exprs_view(arguments@).subrange(0, arguments@.len() as int)
                        =~= exprs_view(arguments@));
                }
                let r = eval_call(name.clone(), values, warnings);
                proof {
                    assert(warnings_of(warnings@) =~= w0 + simplify_warnings(
                        env,
                        expr@,
                        mode,
                        fuel as nat,
                    ));
                }
                r
            },
            _ => {
                proof {
                    assert(warnings_of(warnings@) =~= w0 + simplify_warnings(
                        env,
                        expr@,
                        mode,
                        fuel as nat,
                    ));
                }
                expr.duplicate()
            },
        }
    }

    /// Simplifies an expression in this environment, with as many nested
    /// substitutions as there are bindings, plus one.
    pub fn simplify(&mut self, expr: &Expression, resolve_names: Resolution, warnings: &mut Vec<
        Error,
    >) -> (r: Expression)
        requires
            old(self).wf(),
            expr_wf(expr@),
        ensures
            final(self).wf(),
            expr_wf(r@),
            (r@, final(self).bindings()) == simplify_spec(
                old(self).bindings(),
                expr@,
                resolve_names,
                fuel_of(old(self).bindings()),
            ),
            warnings_of(final(warnings)@) == warnings_of(old(warnings)@) + simplify_warnings(
                old(self).bindings(),
                expr@,
                resolve_names,
                fuel_of(old(self).bindings()),
            ),
    {
        let fuel = self.fuel();
        self.simplify_with(expr, resolve_names, fuel, warnings)
    }

}

} // verus!
