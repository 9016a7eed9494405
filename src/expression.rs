//! Expressions of the Carlo language, and the arithmetic of dimensioned
//! quantities that folds them.

use vstd::prelude::*;
use crate::error::{report, warnings_of, Error, Warning};
use crate::number::Ratio;
use crate::text::{push_str, same_text, string_of_all};
use crate::units::{base_name, base_name_exec, dims_view, power_text, push_power, Dims, DIMENSIONS};

verus! {

/// The four arithmetic operations.
#[derive(Clone, Copy, PartialEq, Eq, Structural, Debug)]
pub enum BinaryOperation {
    Add,
    Sub,
    Mul,
    Div,
}

/// Enumerates the expressions of the Carlo language.
#[derive(Debug)]
pub enum Expression {
    /// `let x = ...`: introduces a binding.
    Assignment { left: String, right: Box<Expression> },
    /// `x = ...`: rebinds an existing name.
    Reassignment { left: String, right: Box<Expression> },
    /// A dimensioned number: its value and the powers of kg, m, s, A, K and
    /// mol, in units of `1 / POWER_ONE`.
    Float { value: Ratio, dims: Dims },
    Identifier(String),
    /// `&x`: substitute the binding of `x` one level deep.
    Symbolic(String),
    /// `!x`: substitute the binding of `x` through symbolic steps.
    FullSymbolic(String),
    BinOp { left: Box<Expression>, oper: BinaryOperation, right: Box<Expression> },
    FnCall { name: String, arguments: Vec<Expression> },
    Subsubheader(String),
    Subheader(String),
    Header(String),
    Paragraph(String),
    Null,
}

/// What an expression is, to the contracts.
pub enum Expr {
    Assignment(Seq<char>, Box<Expr>),
    Reassignment(Seq<char>, Box<Expr>),
    Float(Ratio, Seq<int>),
    Identifier(Seq<char>),
    Symbolic(Seq<char>),
    FullSymbolic(Seq<char>),
    BinOp(Box<Expr>, BinaryOperation, Box<Expr>),
    FnCall(Seq<char>, Seq<Expr>),
    Subsubheader(Seq<char>),
    Subheader(Seq<char>),
    Header(Seq<char>),
    Paragraph(Seq<char>),
    Null,
}

pub open spec fn expr_view(e: Expression) -> Expr
    decreases e,
{
    match e {
        Expression::Assignment { left, right } => Expr::Assignment(left@, Box::new(expr_view(*right))),
        Expression::Reassignment { left, right } => Expr::Reassignment(
            left@,
            Box::new(expr_view(*right)),
        ),
        Expression::Float { value, dims } => Expr::Float(value, dims_view(dims)),
        Expression::Identifier(s) => Expr::Identifier(s@),
        Expression::Symbolic(s) => Expr::Symbolic(s@),
        Expression::FullSymbolic(s) => Expr::FullSymbolic(s@),
        Expression::BinOp { left, oper, right } => Expr::BinOp(
            Box::new(expr_view(*left)),
            oper,
            Box::new(expr_view(*right)),
        ),
        Expression::FnCall { name, arguments } => Expr::FnCall(name@, exprs_view(arguments@)),
        Expression::Subsubheader(s) => Expr::Subsubheader(s@),
        Expression::Subheader(s) => Expr::Subheader(s@),
        Expression::Header(s) => Expr::Header(s@),
        Expression::Paragraph(s) => Expr::Paragraph(s@),
        Expression::Null => Expr::Null,
    }
}

pub open spec fn exprs_view(s: Seq<Expression>) -> Seq<Expr>
    decreases s,
{
    if s.len() == 0 {
        Seq::empty()
    } else {
        exprs_view(s.drop_last()).push(expr_view(s.last()))
    }
}

impl View for Expression {
    type V = Expr;

    open spec fn view(&self) -> Expr {
        expr_view(*self)
    }
}

pub proof fn lemma_exprs_view(s: Seq<Expression>)
    ensures
        exprs_view(s).len() == s.len(),
        forall|i: int| 0 <= i < s.len() ==> #[trigger] exprs_view(s)[i] == expr_view(s[i]),
    decreases s.len(),
{
    if s.len() > 0 {
        lemma_exprs_view(s.drop_last());
        assert forall|i: int| 0 <= i < s.len() implies #[trigger] exprs_view(s)[i] == expr_view(
            s[i],
        ) by {
            if i < s.len() - 1 {
                assert(s.drop_last()[i] == s[i]);
            }
        }
    }
}

/// Are all numbers in the expression well formed?
pub open spec fn expr_wf(e: Expr) -> bool
    decreases e,
{
    match e {
        Expr::Assignment(_, r) => expr_wf(*r),
        Expr::Reassignment(_, r) => expr_wf(*r),
        Expr::Float(v, d) => v.wf() && d.len() == DIMENSIONS,
        Expr::BinOp(l, _, r) => expr_wf(*l) && expr_wf(*r),
        Expr::FnCall(_, args) => exprs_wf(args),
        _ => true,
    }
}

/// Are all the expressions well formed?
pub open spec fn exprs_wf(es: Seq<Expr>) -> bool
    decreases es,
{
    if es.len() == 0 {
        true
    } else {
        exprs_wf(es.drop_last()) && expr_wf(es.last())
    }
}

pub proof fn lemma_exprs_wf(es: Seq<Expr>)
    ensures
        exprs_wf(es) <==> forall|i: int| 0 <= i < es.len() ==> expr_wf(#[trigger] es[i]),
    decreases es.len(),
{
    if es.len() > 0 {
        lemma_exprs_wf(es.drop_last());
        if forall|i: int| 0 <= i < es.len() ==> expr_wf(#[trigger] es[i]) {
            assert forall|i: int| 0 <= i < es.drop_last().len() implies expr_wf(
                #[trigger] es.drop_last()[i],
            ) by {
                assert(es.drop_last()[i] == es[i]);
            }
        }
        if exprs_wf(es) {
            assert forall|i: int| 0 <= i < es.len() implies expr_wf(#[trigger] es[i]) by {
                if i < es.len() - 1 {
                    assert(es.drop_last()[i] == es[i]);
                }
            }
        }
    }
}

/// The arguments of a well-formed call are well formed.
pub proof fn lemma_call_args_wf(name: Seq<char>, args: Seq<Expr>)
    requires
        expr_wf(Expr::FnCall(name, args)),
    ensures
        forall|i: int| 0 <= i < args.len() ==> expr_wf(#[trigger] args[i]),
{
    lemma_exprs_wf(args);
}

/// Do the integers fit a machine word?
pub open spec fn dims_fit(d: Seq<int>) -> bool {
    forall|i: int| 0 <= i < d.len() ==> i64::MIN <= #[trigger] d[i] <= i64::MAX
}

/// The value of `a op b`, if it is defined and in range.
pub open spec fn fold_value(op: BinaryOperation, a: Ratio, b: Ratio) -> Option<Ratio> {
    match op {
        BinaryOperation::Add => Ratio::sum_spec(a, b),
        BinaryOperation::Sub => Ratio::difference_spec(a, b),
        BinaryOperation::Mul => Ratio::product_spec(a, b),
        BinaryOperation::Div => if b.num == 0 {
            None
        } else {
            Ratio::quotient_spec(a, b)
        },
    }
}

/// The power of one base dimension in `a op b`: kept when a sum's or
/// difference's operands agree, zero when they do not; added for a product,
/// subtracted for a quotient.
pub open spec fn fold_dim(op: BinaryOperation, x: int, y: int) -> int {
    match op {
        BinaryOperation::Add | BinaryOperation::Sub => if x == y {
            x
        } else {
            0
        },
        BinaryOperation::Mul => x + y,
        BinaryOperation::Div => x - y,
    }
}

pub open spec fn fold_dims(op: BinaryOperation, a: Seq<int>, b: Seq<int>) -> Seq<int> {
    Seq::new(DIMENSIONS as nat, |i: int| fold_dim(op, a[i], b[i]))
}

/// The constant folding of `l op r`: two numbers become one, when the result
/// is defined and in range; anything else stays an operation.
pub open spec fn fold(op: BinaryOperation, l: Expr, r: Expr) -> Expr {
    match (l, r) {
        (Expr::Float(a, da), Expr::Float(b, db)) => {
            let d = fold_dims(op, da, db);
            match fold_value(op, a, b) {
                Some(v) => if dims_fit(d) {
                    Expr::Float(v, d)
                } else {
                    Expr::BinOp(Box::new(l), op, Box::new(r))
                },
                None => Expr::BinOp(Box::new(l), op, Box::new(r)),
            }
        },
        _ => Expr::BinOp(Box::new(l), op, Box::new(r)),
    }
}

/// Is the expression a number?
pub open spec fn is_float(e: Expr) -> bool {
    e is Float
}

/// Halves a power, if it is even.
pub open spec fn half_power(p: int) -> Option<int> {
    if p % 2 == 0 {
        Some(p / 2)
    } else {
        None
    }
}

/// The square root of a quantity: the root of its value, half of each power.
pub open spec fn sqrt_quantity(v: Ratio, d: Seq<int>) -> Option<Expr> {
    if v.num < 0 || !(forall|i: int| 0 <= i < d.len() ==> #[trigger] half_power(d[i]) is Some) {
        None
    } else {
        match Ratio::sqrt_spec(v) {
            Some(r) => Some(Expr::Float(r, Seq::new(d.len(), |i: int| d[i] / 2))),
            None => None,
        }
    }
}

/// The built-in `sqrt` applied to evaluated arguments.
pub open spec fn sqrt_call(args: Seq<Expr>) -> Expr {
    if args.len() != 1 {
        Expr::Null
    } else {
        match args[0] {
            Expr::Float(v, d) => match sqrt_quantity(v, d) {
                Some(e) => e,
                None => Expr::FnCall(seq!['s', 'q', 'r', 't'], args),
            },
            _ => Expr::FnCall(seq!['s', 'q', 'r', 't'], args),
        }
    }
}

/// The warnings of the built-in `sqrt` on evaluated arguments: a negative
/// value, or powers or a root out of range; nothing otherwise.
pub open spec fn sqrt_warnings(args: Seq<Expr>) -> Seq<Warning> {
    if args.len() != 1 {
        Seq::empty()
    } else {
        match args[0] {
            Expr::Float(v, d) => if v.num < 0 {
                seq![Warning::NegativeRoot(seq!['s', 'q', 'r', 't'])]
            } else if sqrt_quantity(v, d) is None {
                seq![Warning::ArithmeticOverflow(seq!['s', 'q', 'r', 't'])]
            } else {
                Seq::empty()
            },
            _ => Seq::empty(),
        }
    }
}

/// The warnings of a call: only the built-in `sqrt` warns.
pub open spec fn call_warnings(name: Seq<char>, args: Seq<Expr>) -> Seq<Warning> {
    if name == seq!['s', 'q', 'r', 't'] {
        sqrt_warnings(args)
    } else {
        Seq::empty()
    }
}

/// A call of the function `name` on evaluated arguments: `sqrt` is built in,
/// any other name stays a call.
pub open spec fn call(name: Seq<char>, args: Seq<Expr>) -> Expr {
    if name == seq!['s', 'q', 'r', 't'] {
        sqrt_call(args)
    } else {
        Expr::FnCall(name, args)
    }
}

fn copy_string(s: &String) -> (r: String)
    ensures
        r@ == s@,
{
    s.clone()
}

impl Expression {
    /// A deep copy of this expression.
    pub fn duplicate(&self) -> (r: Expression)
        ensures
            r@ == self@,
        decreases self,
    {
        match self {
            Expression::Assignment { left, right } => Expression::Assignment {
                left: copy_string(left),
                right: Box::new(right.duplicate()),
            },
            Expression::Reassignment { left, right } => Expression::Reassignment {
                left: copy_string(left),
                right: Box::new(right.duplicate()),
            },
            Expression::Float { value, dims } => Expression::Float { value: *value, dims: *dims },
            Expression::Identifier(s) => Expression::Identifier(copy_string(s)),
            Expression::Symbolic(s) => Expression::Symbolic(copy_string(s)),
            Expression::FullSymbolic(s) => Expression::FullSymbolic(copy_string(s)),
            Expression::BinOp { left, oper, right } => Expression::BinOp {
                left: Box::new(left.duplicate()),
                oper: *oper,
                right: Box::new(right.duplicate()),
            },
            Expression::FnCall { name, arguments } => {
                let mut out: Vec<Expression> = Vec::new();
                let mut i: usize = 0;
                while i < arguments.len()
                    invariant
                        i <= arguments@.len(),
                        *self == (Expression::FnCall { name: *name, arguments: *arguments }),
                        exprs_view(out@) == exprs_view(arguments@.subrange(0, i as int)),
                    decreases arguments@.len() - i,
                {
                    proof {
                        vstd::std_specs::vec::axiom_vec_index_decreases(*arguments, i as int);
                        assert(decreases_to!(*self => (*self)->FnCall_arguments));
                    }
                    let a = arguments[i].duplicate();
                    let ghost before = out@;
                    out.push(a);
                    proof {
                        assert(out@.drop_last() =~= before);
                        assert(arguments@.subrange(0, i + 1).drop_last() =~= arguments@.subrange(
                            0,
                            i as int,
                        ));
                    }
                    i += 1;
                }
                proof {
                    assert(arguments@.subrange(0, arguments@.len() as int) =~= arguments@);
                }
                Expression::FnCall { name: copy_string(name), arguments: out }
            },
            Expression::Subsubheader(s) => Expression::Subsubheader(copy_string(s)),
            Expression::Subheader(s) => Expression::Subheader(copy_string(s)),
            Expression::Header(s) => Expression::Header(copy_string(s)),
            Expression::Paragraph(s) => Expression::Paragraph(copy_string(s)),
            Expression::Null => Expression::Null,
        }
    }

    /// Is this expression a number?
    pub fn is_numeric(&self) -> (r: bool)
        ensures
            r == is_float(self@),
    {
        match self {
            Expression::Float { .. } => true,
            _ => false,
        }
    }

    /// Is this expression a one-level symbolic reference `&x`?
    pub fn is_symbolic(&self) -> (r: bool)
        ensures
            r == (self@ is Symbolic),
    {
        match self {
            Expression::Symbolic(_) => true,
            _ => false,
        }
    }

    /// Is this expression a document marker (a header or a paragraph)?
    pub fn is_marker(&self) -> (r: bool)
        ensures
            r == (self@ is Header || self@ is Subheader || self@ is Subsubheader
                || self@ is Paragraph),
    {
        match self {
            Expression::Header(_) | Expression::Subheader(_) | Expression::Subsubheader(_)
            | Expression::Paragraph(_) => true,
            _ => false,
        }
    }

    /// Is this expression the empty placeholder?
    pub fn is_null(&self) -> (r: bool)
        ensures
            r == (self@ is Null),
    {
        match self {
            Expression::Null => true,
            _ => false,
        }
    }
}

/// The warning that the powers `x` and `y` of base dimension `d` disagree.
pub open spec fn unmatched(d: int, x: int, y: int) -> Warning {
    Warning::UnmatchedUnits(base_name(d), power_text(x), power_text(y))
}

/// One `UnmatchedUnits` warning for each of the first `n` base dimensions
/// whose powers disagree, in the order kg, m, s, A, K, mol.
pub open spec fn unmatched_warnings(da: Seq<int>, db: Seq<int>, n: int) -> Seq<Warning>
    decreases n,
{
    if n <= 0 {
        Seq::empty()
    } else {
        unmatched_warnings(da, db, n - 1) + if da[n - 1] != db[n - 1] {
            seq![unmatched(n - 1, da[n - 1], db[n - 1])]
        } else {
            Seq::empty()
        }
    }
}

/// The warnings that folding `l op r` records: for a sum or difference of
/// numbers, one per disagreeing dimension; then, when the operation stays
/// unfolded although both sides are numbers, why: a division by zero, or a
/// result out of range. Nothing else warns.
pub open spec fn fold_warnings(op: BinaryOperation, l: Expr, r: Expr) -> Seq<Warning> {
    match (l, r) {
        (Expr::Float(a, da), Expr::Float(b, db)) => {
            let u = if op == BinaryOperation::Add || op == BinaryOperation::Sub {
                unmatched_warnings(da, db, DIMENSIONS as int)
            } else {
                Seq::empty()
            };
            u + if !dims_fit(fold_dims(op, da, db)) {
                seq![Warning::ArithmeticOverflow(op_symbol(op))]
            } else if fold_value(op, a, b) is None {
                if op == BinaryOperation::Div && b.num == 0 {
                    seq![Warning::DivisionByZero(op_symbol(op))]
                } else {
                    seq![Warning::ArithmeticOverflow(op_symbol(op))]
                }
            } else {
                Seq::empty()
            }
        },
        _ => Seq::empty(),
    }
}

/// Reports that the powers of one base dimension disagree.
fn report_unmatched(warnings: &mut Vec<Error>, d: usize, x: i64, y: i64)
    requires
        d < DIMENSIONS,
    ensures
        warnings_of(final(warnings)@) == warnings_of(old(warnings)@).push(
            unmatched(d as int, x as int, y as int),
        ),
{
    let mut name = String::new();
    push_str(&mut name, base_name_exec(d));
    let mut l = String::new();
    push_power(&mut l, x);
    let mut r = String::new();
    push_power(&mut r, y);
    proof {
        assert(name@ =~= base_name(d as int));
        assert(l@ =~= power_text(x as int));
        assert(r@ =~= power_text(y as int));
    }
    report(warnings, Error::UnmatchedUnits(name, l, r));
}

impl BinaryOperation {
    /// The operator as plain output shows it.
    pub fn symbol(&self) -> (r: &'static str)
        ensures
            r@ == op_symbol(*self),
    {
        proof {
            reveal_strlit("+");
            reveal_strlit("-");
            reveal_strlit("*");
            reveal_strlit("/");
        }
        match self {
            BinaryOperation::Add => "+",
            BinaryOperation::Sub => "-",
            BinaryOperation::Mul => "*",
            BinaryOperation::Div => "/",
        }
    }

    /// Displays this operation in LaTeX.
    pub fn latex(&self) -> (r: String)
        ensures
            r@ == op_latex(*self),
    {
        proof {
            reveal_strlit(" + ");
            reveal_strlit(" - ");
            reveal_strlit(" ");
            reveal_strlit(" / ");
        }
        let s = match self {
            BinaryOperation::Add => " + ",
            BinaryOperation::Sub => " - ",
            BinaryOperation::Mul => " ",
            BinaryOperation::Div => " / ",
        };
        let mut r = String::new();
        push_str(&mut r, s);
        r
    }

    /// Operates on two numbers; `None` when the result is undefined or out of range.
    pub fn oper_value(&self, left: &Ratio, right: &Ratio) -> (r: Option<Ratio>)
        requires
            left.wf(),
            right.wf(),
        ensures
            r == fold_value(*self, *left, *right),
            r is Some ==> r->0.wf(),
    {
        match self {
            BinaryOperation::Add => left.add(right),
            BinaryOperation::Sub => left.sub(right),
            BinaryOperation::Mul => left.mul(right),
            BinaryOperation::Div => if right.num == 0 {
                None
            } else {
                left.div(right)
            },
        }
    }

    /// Operates on the powers of one base dimension; `None` when out of range.
    pub fn oper_unit(&self, left: i64, right: i64) -> (r: Option<i64>)
        ensures
            match r {
                Some(v) => v == fold_dim(*self, left as int, right as int),
                None => !(i64::MIN <= fold_dim(*self, left as int, right as int) <= i64::MAX),
            },
    {
        match self {
            BinaryOperation::Add | BinaryOperation::Sub => if left == right {
                Some(left)
            } else {
                Some(0)
            },
            BinaryOperation::Mul => left.checked_add(right),
            BinaryOperation::Div => left.checked_sub(right),
        }
    }

    /// Folds `left op right` into one number when both are numbers; a sum or
    /// difference whose powers disagree reports each disagreeing dimension.
    /// Division by zero and results out of range are reported and leave the
    /// operation standing.
    pub fn simplify(&self, left: Expression, right: Expression, warnings: &mut Vec<Error>) -> (r:
        Expression)
        requires
            expr_wf(left@),
            expr_wf(right@),
        ensures
            r@ == fold(*self, left@, right@),
            expr_wf(r@),
            warnings_of(final(warnings)@) == warnings_of(old(warnings)@) + fold_warnings(
                *self,
                left@,
                right@,
            ),
    {
        let ghost lv = left@;
        let ghost rv = right@;
        let ghost start = warnings_of(warnings@);
        if let (Expression::Float { value: a, dims: da }, Expression::Float { value: b, dims: db }) = (
            &left,
            &right,
        ) {
            let ghost dav = dims_view(*da);
            let ghost dbv = dims_view(*db);
            let ghost adds = *self == BinaryOperation::Add || *self == BinaryOperation::Sub;
            let mut out: Dims = [0, 0, 0, 0, 0, 0];
            let mut ok = true;
            let mut d: usize = 0;
            while d < DIMENSIONS
                invariant
                    d <= DIMENSIONS,
                    dav == dims_view(*da),
                    dbv == dims_view(*db),
                    adds == (*self == BinaryOperation::Add || *self == BinaryOperation::Sub),
                    warnings_of(warnings@) == start + if adds {
                        unmatched_warnings(dav, dbv, d as int)
                    } else {
                        Seq::empty()
                    },
                    ok ==> forall|i: int| 0 <= i < d ==> out@[i] as int == fold_dim(
                        *self,
                        da@[i] as int,
                        db@[i] as int,
                    ),
                    !ok ==> !dims_fit(fold_dims(*self, dims_view(*da), dims_view(*db))),
                decreases DIMENSIONS - d,
            {
                let x = da[d];
                let y = db[d];
                let ghost w = warnings_of(warnings@);
                proof {
                    assert(dav[d as int] == x as int);
                    assert(dbv[d as int] == y as int);
                }
                if (*self == BinaryOperation::Add || *self == BinaryOperation::Sub) && x != y {
                    report_unmatched(warnings, d, x, y);
                }
                proof {
                    if adds {
                        assert(warnings_of(warnings@) =~= start + unmatched_warnings(
                            dav,
                            dbv,
                            d + 1,
                        ));
                    }
                }
                match self.oper_unit(x, y) {
                    Some(v) => {
                        out[d] = v;
                    },
                    None => {
                        proof {
                            assert(fold_dims(*self, dims_view(*da), dims_view(*db))[d as int]
                                == fold_dim(*self, x as int, y as int));
                        }
                        ok = false;
                    },
                }
                d += 1;
            }
            let ghost u = if adds {
                unmatched_warnings(dav, dbv, DIMENSIONS as int)
            } else {
                Seq::<Warning>::empty()
            };
            let mut text = String::new();
            push_str(&mut text, self.symbol());
            if ok {
                proof {
                    assert(dims_view(out) =~= fold_dims(*self, dims_view(*da), dims_view(*db)));
                }
                if let Some(v) = self.oper_value(a, b) {
                    proof {
                        assert(warnings_of(warnings@) =~= start + fold_warnings(*self, lv, rv));
                    }
                    return Expression::Float { value: v, dims: out };
                } else {
                    if *self == BinaryOperation::Div && b.num == 0 {
                        report(warnings, Error::DivisionByZero(text));
                    } else {
                        report(warnings, Error::ArithmeticOverflow(text));
                    }
                }
            } else {
                report(warnings, Error::ArithmeticOverflow(text));
            }
            proof {
                assert(warnings_of(warnings@) =~= start + fold_warnings(*self, lv, rv));
            }
        } else {
            proof {
                assert(warnings_of(warnings@) =~= start + fold_warnings(*self, lv, rv));
            }
        }
        Expression::BinOp { left: Box::new(left), oper: *self, right: Box::new(right) }
    }
}

pub open spec fn op_symbol(op: BinaryOperation) -> Seq<char> {
    match op {
        BinaryOperation::Add => seq!['+'],
        BinaryOperation::Sub => seq!['-'],
        BinaryOperation::Mul => seq!['*'],
        BinaryOperation::Div => seq!['/'],
    }
}

pub open spec fn op_latex(op: BinaryOperation) -> Seq<char> {
    match op {
        BinaryOperation::Add => seq![' ', '+', ' '],
        BinaryOperation::Sub => seq![' ', '-', ' '],
        BinaryOperation::Mul => seq![' '],
        BinaryOperation::Div => seq![' ', '/', ' '],
    }
}

/// The name of the built-in square root.
pub fn sqrt_name() -> (r: String)
    ensures
        r@ == seq!['s', 'q', 'r', 't'],
{
    string_of_all(&vec!['s', 'q', 'r', 't'])
}

fn halve(p: i64) -> (r: Option<i64>)
    ensures
        match r {
            Some(h) => half_power(p as int) == Some(h as int),
            None => half_power(p as int) is None,
        },
{
    if p % 2 == 0 {
        Some(p / 2)
    } else {
        None
    }
}

/// Evaluates the built-in square root on evaluated arguments.
pub fn eval_sqrt(arguments: Vec<Expression>, warnings: &mut Vec<Error>) -> (r: Expression)
    requires
        forall|i: int| 0 <= i < arguments@.len() ==> expr_wf(#[trigger] arguments@[i]@),
    ensures
        r@ == sqrt_call(exprs_view(arguments@)),
        expr_wf(r@),
        warnings_of(final(warnings)@) == warnings_of(old(warnings)@) + sqrt_warnings(
            exprs_view(arguments@),
        ),
{
    proof {
        reveal_strlit("sqrt");
        assert("sqrt"@ =~= seq!['s', 'q', 'r', 't']);
    }
    proof {
        lemma_exprs_view(arguments@);
    }
    let ghost args = exprs_view(arguments@);
    if arguments.len() != 1 {
        proof {
            assert(warnings_of(warnings@) =~= warnings_of(old(warnings)@) + sqrt_warnings(args));
        }
        return Expression::Null;
    }
    proof {
        assert(expr_wf(arguments@[0]@));
    }
    if let Expression::Float { value, dims } = &arguments[0] {
        let value = *value;
        let dims = *dims;
        let ghost start = warnings@;
        if value.num >= 0 {
            let h0 = halve(dims[0]);
            let h1 = halve(dims[1]);
            let h2 = halve(dims[2]);
            let h3 = halve(dims[3]);
            let h4 = halve(dims[4]);
            let h5 = halve(dims[5]);
            if let (Some(h0), Some(h1), Some(h2), Some(h3), Some(h4), Some(h5)) = (
                h0,
                h1,
                h2,
                h3,
                h4,
                h5,
            ) {
                proof {
                    let d = dims_view(dims);
                    assert forall|i: int| 0 <= i < d.len() implies #[trigger] half_power(d[i]) is Some by {
                        if i == 0 {} else if i == 1 {} else if i == 2 {} else if i == 3 {} else if i == 4 {} else {}
                    }
                }
                if let Some(root) = value.sqrt() {
                    let out: Dims = [h0, h1, h2, h3, h4, h5];
                    proof {
                        let d = dims_view(dims);
                        assert(dims_view(out) =~= Seq::new(d.len(), |i: int| d[i] / 2));
                        assert(warnings_of(warnings@) =~= warnings_of(old(warnings)@)
                            + sqrt_warnings(args));
                    }
                    return Expression::Float { value: root, dims: out };
                }
                let mut text = String::new();
                push_str(&mut text, "sqrt");
                report(warnings, Error::ArithmeticOverflow(text));
            } else {
                proof {
                    let d = dims_view(dims);
                    assert(d[0] == dims[0] as int);
                    assert(d[1] == dims[1] as int);
                    assert(d[2] == dims[2] as int);
                    assert(d[3] == dims[3] as int);
                    assert(d[4] == dims[4] as int);
                    assert(d[5] == dims[5] as int);
                    assert(!(forall|i: int| 0 <= i < d.len() ==> #[trigger] half_power(d[i]) is Some));
                }
                let mut text = String::new();
                push_str(&mut text, "sqrt");
                report(warnings, Error::ArithmeticOverflow(text));
            }
        } else {
            let mut text = String::new();
            push_str(&mut text, "sqrt");
            report(warnings, Error::NegativeRoot(text));
        }
        proof {
            assert(args[0] == Expr::Float(value, dims_view(dims)));
            assert(warnings_of(warnings@) =~= warnings_of(old(warnings)@) + sqrt_warnings(args));
        }
    } else {
        proof {
            assert(args[0] == arguments@[0]@);
            assert(warnings_of(warnings@) =~= warnings_of(old(warnings)@) + sqrt_warnings(args));
        }
    }
    proof {
        lemma_call_wf(seq!['s', 'q', 'r', 't'], arguments@);
    }
    let r = Expression::FnCall { name: sqrt_name(), arguments };
    proof {
        assert(r@ == Expr::FnCall(seq!['s', 'q', 'r', 't'], args));
        assert(args[0] == arguments@[0]@);
    }
    r
}

proof fn lemma_call_wf(name: Seq<char>, args: Seq<Expression>)
    requires
        forall|i: int| 0 <= i < args.len() ==> expr_wf(#[trigger] args[i]@),
    ensures
        expr_wf(Expr::FnCall(name, exprs_view(args))),
{
    lemma_exprs_view(args);
    let v = exprs_view(args);
    assert forall|i: int| 0 <= i < v.len() implies expr_wf(#[trigger] v[i]) by {
        assert(v[i] == args[i]@);
    }
    lemma_exprs_wf(v);
}

/// Calls the function `name` on evaluated arguments.
pub fn eval_call(name: String, arguments: Vec<Expression>, warnings: &mut Vec<Error>) -> (r:
    Expression)
    requires
        forall|i: int| 0 <= i < arguments@.len() ==> expr_wf(#[trigger] arguments@[i]@),
    ensures
        r@ == call(name@, exprs_view(arguments@)),
        expr_wf(r@),
        warnings_of(final(warnings)@) == warnings_of(old(warnings)@) + call_warnings(
            name@,
            exprs_view(arguments@),
        ),
{
    if same_text(name.as_str(), "sqrt") {
        proof {
            reveal_strlit("sqrt");
            assert("sqrt"@ =~= seq!['s', 'q', 'r', 't']);
        }
        eval_sqrt(arguments, warnings)
    } else {
        proof {
            reveal_strlit("sqrt");
            lemma_call_wf(name@, arguments@);
            assert("sqrt"@ =~= seq!['s', 'q', 'r', 't']);
            assert(name@ != seq!['s', 'q', 'r', 't']);
            assert(warnings_of(warnings@) =~= warnings_of(old(warnings)@) + call_warnings(
                name@,
                exprs_view(arguments@),
            ));
        }
        let r = Expression::FnCall { name, arguments };
        proof {
            assert(r@ == Expr::FnCall(name@, exprs_view(arguments@)));
        }
        r
    }
}

} // verus!
