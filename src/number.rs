//! Exact numbers: fractions of bounded integers.
//!
//! A quantity's numeric value is a fraction `num / den` with `0 < den` and
//! both parts at most `BOUND` in size, kept in lowest terms. Every operation
//! is exact; one whose exact result (or a step on the way to it) leaves that
//! range reports failure instead of rounding. Square roots are the one
//! inexact operation: they are cut to a fixed number of decimal places.

use vstd::prelude::*;
use crate::text::push_char;
use crate::token::{is_digit, is_digit_exec};

verus! {

/// The largest size of a numerator or denominator: ten to the thirtieth.
pub const BOUND: i128 = 1_000_000_000_000_000_000_000_000_000_000;

pub open spec fn in_range(x: int) -> bool {
    -BOUND <= x <= BOUND
}

pub open spec fn pow10(n: nat) -> int
    decreases n,
{
    if n == 0 {
        1
    } else {
        10 * pow10((n - 1) as nat)
    }
}

pub proof fn lemma_pow10_positive(n: nat)
    ensures
        pow10(n) >= 1,
    decreases n,
{
    if n > 0 {
        lemma_pow10_positive((n - 1) as nat);
    }
}

/// An exact fraction.
#[derive(Clone, Copy, PartialEq, Eq, Structural, Debug)]
pub struct Ratio {
    pub num: i128,
    pub den: i128,
}

impl Ratio {
    /// Both parts in range, and a positive denominator.
    pub open spec fn wf(self) -> bool {
        0 < self.den <= BOUND && in_range(self.num as int)
    }

    /// Do two fractions stand for the same number?
    pub open spec fn same(self, o: Ratio) -> bool {
        self.num * o.den == o.num * self.den
    }

    /// The fraction with the given parts in lowest terms, if the parts are in range.
    pub open spec fn make(num: int, den: int) -> Option<Ratio> {
        if in_range(num) && 0 < den <= BOUND {
            Some(lowest_terms(Ratio { num: num as i128, den: den as i128 }))
        } else {
            None
        }
    }

    /// The exact sum.
    pub open spec fn sum_spec(a: Ratio, b: Ratio) -> Option<Ratio> {
        if in_range(a.num * b.den) && in_range(b.num * a.den) {
            Ratio::make(a.num * b.den + b.num * a.den, a.den * b.den)
        } else {
            None
        }
    }

    /// The exact difference.
    pub open spec fn difference_spec(a: Ratio, b: Ratio) -> Option<Ratio> {
        if in_range(a.num * b.den) && in_range(b.num * a.den) {
            Ratio::make(a.num * b.den - b.num * a.den, a.den * b.den)
        } else {
            None
        }
    }

    /// The exact product.
    pub open spec fn product_spec(a: Ratio, b: Ratio) -> Option<Ratio> {
        Ratio::make(a.num * b.num, a.den * b.den)
    }

    /// The exact quotient; requires a nonzero divisor.
    pub open spec fn quotient_spec(a: Ratio, b: Ratio) -> Option<Ratio> {
        if b.num > 0 {
            Ratio::make(a.num * b.den, a.den * b.num)
        } else {
            Ratio::make(-(a.num * b.den), -(a.den * b.num))
        }
    }

    /// A whole number.
    pub fn integer(n: i128) -> (r: Ratio)
        requires
            in_range(n as int),
        ensures
            r.wf(),
            r.num == n,
            r.den == 1,
    {
        Ratio { num: n, den: 1 }
    }

    pub fn is_zero(&self) -> (r: bool)
        ensures
            r == (self.num == 0),
    {
        self.num == 0
    }

    pub fn add(&self, o: &Ratio) -> (r: Option<Ratio>)
        requires
            self.wf(),
            o.wf(),
        ensures
            r == Ratio::sum_spec(*self, *o),
            r is Some ==> r->0.wf(),
    {
        let p = mul_in_range(self.num, o.den)?;
        let q = mul_in_range(o.num, self.den)?;
        let n = add_in_range(p, q)?;
        let d = mul_in_range(self.den, o.den)?;
        if d <= 0 {
            proof {
                assert(self.den * o.den > 0) by (nonlinear_arith)
                    requires
                        self.den > 0,
                        o.den > 0,
                ;
            }
            return None;
        }
        Some(reduce(Ratio { num: n, den: d }))
    }

    pub fn sub(&self, o: &Ratio) -> (r: Option<Ratio>)
        requires
            self.wf(),
            o.wf(),
        ensures
            r == Ratio::difference_spec(*self, *o),
            r is Some ==> r->0.wf(),
    {
        let p = mul_in_range(self.num, o.den)?;
        let q = mul_in_range(o.num, self.den)?;
        let n = add_in_range(p, -q)?;
        let d = mul_in_range(self.den, o.den)?;
        if d <= 0 {
            proof {
                assert(self.den * o.den > 0) by (nonlinear_arith)
                    requires
                        self.den > 0,
                        o.den > 0,
                ;
            }
            return None;
        }
        Some(reduce(Ratio { num: n, den: d }))
    }

    pub fn mul(&self, o: &Ratio) -> (r: Option<Ratio>)
        requires
            self.wf(),
            o.wf(),
        ensures
            r == Ratio::product_spec(*self, *o),
            r is Some ==> r->0.wf(),
    {
        proof {
            assert(self.den * o.den > 0) by (nonlinear_arith)
                requires
                    self.den > 0,
                    o.den > 0,
            ;
        }
        let n = mul_in_range(self.num, o.num);
        let d = mul_in_range(self.den, o.den);
        match (n, d) {
            (Some(n), Some(d)) => Some(reduce(Ratio { num: n, den: d })),
            _ => None,
        }
    }

    /// The quotient; requires a nonzero divisor.
    pub fn div(&self, o: &Ratio) -> (r: Option<Ratio>)
        requires
            self.wf(),
            o.wf(),
            o.num != 0,
        ensures
            r == Ratio::quotient_spec(*self, *o),
            r is Some ==> r->0.wf(),
    {
        let n = mul_in_range(self.num, o.den);
        let d = mul_in_range(self.den, o.num);
        match (n, d) {
            (Some(n), Some(d)) => {
                if o.num > 0 {
                    proof {
                        assert(self.den * o.num > 0) by (nonlinear_arith)
                            requires
                                self.den > 0,
                                o.num > 0,
                        ;
                    }
                    Some(reduce(Ratio { num: n, den: d }))
                } else {
                    proof {
                        assert(self.den * o.num < 0) by (nonlinear_arith)
                            requires
                                self.den > 0,
                                o.num < 0,
                        ;
                    }
                    Some(reduce(Ratio { num: -n, den: -d }))
                }
            },
            _ => None,
        }
    }

    /// The square root of a non-negative fraction, cut to six decimal
    /// places below its denominator.
    pub fn sqrt(&self) -> (r: Option<Ratio>)
        requires
            self.wf(),
            self.num >= 0,
        ensures
            r == Ratio::sqrt_spec(*self),
            r is Some ==> r->0.wf() && r->0.num >= 0,
    {
        let nd = mul_in_range(self.num, self.den)?;
        let dscaled = mul_in_range(self.den, 1_000_000)?;
        proof {
            assert(self.num * self.den >= 0) by (nonlinear_arith)
                requires
                    self.num >= 0,
                    self.den > 0,
            ;
            assert(self.den * 1_000_000 > 0) by (nonlinear_arith)
                requires
                    self.den > 0,
            ;
        }
        let m = (nd as u128).checked_mul(1_000_000_000_000)?;
        let root = isqrt(m);
        proof {
            lemma_root_unique(root as int, root_of(m as int), m as int);
        }
        if root <= BOUND as u128 {
            Some(reduce(Ratio { num: root as i128, den: dscaled }))
        } else {
            None
        }
    }

    /// The square root, as `sqrt` computes it.
    pub open spec fn sqrt_spec(x: Ratio) -> Option<Ratio> {
        let nd = x.num * x.den;
        let m = nd * 1_000_000_000_000;
        if in_range(nd) && in_range(x.den * 1_000_000) && m <= u128::MAX && root_of(m) <= BOUND {
            Some(lowest_terms(Ratio { num: root_of(m) as i128, den: (x.den * 1_000_000) as i128 }))
        } else {
            None
        }
    }
}

/// The whole part of the square root of `m`.
pub open spec fn root_of(m: int) -> int {
    choose|r: int| is_root(r, m)
}

proof fn lemma_root_unique(a: int, b: int, m: int)
    requires
        is_root(a, m),
    ensures
        root_of(m) == a,
{
    let b = root_of(m);
    assert(is_root(b, m));
    if b < a {
        assert((b + 1) * (b + 1) <= a * a) by (nonlinear_arith)
            requires
                0 <= b < a,
        ;
    } else if a < b {
        assert((a + 1) * (a + 1) <= b * b) by (nonlinear_arith)
            requires
                0 <= a < b,
        ;
    }
}

/// The greatest common divisor, by Euclid's algorithm.
pub open spec fn gcd(a: nat, b: nat) -> nat
    decreases b,
{
    if b == 0 {
        a
    } else {
        gcd(b, a % b)
    }
}

/// The greatest common divisor divides both numbers, and is positive unless both are zero.
pub proof fn lemma_gcd(a: nat, b: nat)
    ensures
        (a > 0 || b > 0) ==> gcd(a, b) > 0,
        gcd(a, b) > 0 ==> a % gcd(a, b) == 0 && b % gcd(a, b) == 0,
    decreases b,
{
    if b > 0 {
        lemma_gcd(b, a % b);
        let g = gcd(a, b);
        let r = a % b;
        if g > 0 {
            vstd::arithmetic::div_mod::lemma_fundamental_div_mod(a as int, b as int);
            vstd::arithmetic::div_mod::lemma_fundamental_div_mod(b as int, g as int);
            vstd::arithmetic::div_mod::lemma_fundamental_div_mod(r as int, g as int);
            let k = b as int / g as int;
            let m = r as int / g as int;
            let q = a as int / b as int;
            assert(a as int == g * (k * q + m)) by (nonlinear_arith)
                requires
                    a as int == b * q + r,
                    b as int == g * k,
                    r as int == g * m,
            ;
            vstd::arithmetic::div_mod::lemma_mod_multiples_basic(k * q + m, g as int);
            assert((k * q + m) * g == g * (k * q + m)) by (nonlinear_arith);
        }
    }
}

/// The absolute value of an integer.
pub open spec fn abs(x: int) -> nat {
    if x < 0 {
        (-x) as nat
    } else {
        x as nat
    }
}

/// A fraction in lowest terms: both parts divided by their greatest common divisor.
pub open spec fn lowest_terms(r: Ratio) -> Ratio {
    let g = gcd(abs(r.num as int), r.den as nat);
    let n = abs(r.num as int) / g;
    Ratio { num: (if r.num < 0 {
        -n
    } else {
        n as int
    }) as i128, den: (r.den as nat / g) as i128 }
}

/// The greatest common divisor of two machine numbers.
fn gcd_exec(a: u128, b: u128) -> (g: u128)
    ensures
        g == gcd(a as nat, b as nat),
{
    let mut x = a;
    let mut y = b;
    while y != 0
        invariant
            gcd(x as nat, y as nat) == gcd(a as nat, b as nat),
        decreases y,
    {
        let t = x % y;
        x = y;
        y = t;
    }
    x
}

/// Brings a fraction to lowest terms; the number it stands for is unchanged.
pub fn reduce(r: Ratio) -> (out: Ratio)
    requires
        r.wf(),
    ensures
        out == lowest_terms(r),
        out.wf(),
        out.same(r),
        (out.num < 0) == (r.num < 0),
{
    let neg = r.num < 0;
    let a: u128 = if neg {
        (-r.num) as u128
    } else {
        r.num as u128
    };
    let d = r.den as u128;
    let g = gcd_exec(a, d);
    proof {
        lemma_gcd(a as nat, d as nat);
        vstd::arithmetic::div_mod::lemma_fundamental_div_mod(a as int, g as int);
        vstd::arithmetic::div_mod::lemma_fundamental_div_mod(d as int, g as int);
    }
    let n = (a / g) as i128;
    let m = (d / g) as i128;
    proof {
        assert(a / g <= a) by {
            vstd::arithmetic::div_mod::lemma_div_is_ordered_by_denominator(a as int, 1, g as int);
        }
        assert(d / g <= d) by {
            vstd::arithmetic::div_mod::lemma_div_is_ordered_by_denominator(d as int, 1, g as int);
        }
        if neg {
            assert((a / g) > 0) by (nonlinear_arith)
                requires
                    a as int == g * (a as int / g as int),
                    a > 0,
                    g > 0,
            ;
        }
        assert((d / g) > 0) by (nonlinear_arith)
            requires
                d as int == g * (d as int / g as int),
                d > 0,
                g > 0,
        ;
        assert((a / g) * d == a * (d / g)) by (nonlinear_arith)
            requires
                a as int == g * (a as int / g as int),
                d as int == g * (d as int / g as int),
                g > 0,
        ;
    }
    let out = if neg {
        Ratio { num: -n, den: m }
    } else {
        Ratio { num: n, den: m }
    };
    proof {
        assert(abs(r.num as int) == a);
        assert(out.num * r.den == r.num * out.den) by (nonlinear_arith)
            requires
                (a / g) * d == a * (d / g),
                out.num == (if neg { -(a / g) } else { (a / g) as int }),
                r.num == (if neg { -a } else { a as int }),
                out.den == d / g,
                r.den == d,
        ;
    }
    out
}

/// Is `r` the whole part of the square root of `m`?
pub open spec fn is_root(r: int, m: int) -> bool {
    r >= 0 && r * r <= m < (r + 1) * (r + 1)
}

/// The whole part of the square root.
pub fn isqrt(m: u128) -> (r: u128)
    ensures
        is_root(r as int, m as int),
{
    // binary search for the largest r with r * r <= m
    let mut lo: u128 = 0;
    let mut hi: u128 = 0x1_0000_0000_0000_0000;
    proof {
        assert(hi * hi > u128::MAX) by (nonlinear_arith)
            requires
                hi == 0x1_0000_0000_0000_0000u128,
        ;
    }
    while hi - lo > 1
        invariant
            lo < hi <= 0x1_0000_0000_0000_0000,
            lo * lo <= m,
            hi * hi > m,
        decreases hi - lo,
    {
        let mid = lo + (hi - lo) / 2;
        proof {
            assert(mid * mid <= hi * hi) by (nonlinear_arith)
                requires
                    mid <= hi,
            ;
        }
        if mid < 0x1_0000_0000_0000_0000 && {
            proof {
                assert(mid * mid < 0x1_0000_0000_0000_0000 * 0x1_0000_0000_0000_0000)
                    by (nonlinear_arith)
                    requires
                        mid < 0x1_0000_0000_0000_0000u128,
                ;
            }
            mid * mid <= m
        } {
            lo = mid;
        } else {
            if mid >= 0x1_0000_0000_0000_0000 {
                assert(false);
            }
            hi = mid;
        }
    }
    lo
}

pub fn pow10_exec(n: u32) -> (r: i128)
    requires
        n <= 30,
    ensures
        r == pow10(n as nat),
        1 <= r <= BOUND,
{
    let mut r: i128 = 1;
    let mut i: u32 = 0;
    while i < n
        invariant
            i <= n <= 30,
            r == pow10(i as nat),
        decreases n - i,
    {
        proof {
            lemma_pow10_monotone((i + 1) as nat, 30);
            lemma_pow10_bound();
        }
        r = r * 10;
        i += 1;
    }
    proof {
        lemma_pow10_monotone(n as nat, 30);
        lemma_pow10_bound();
    }
    r
}

/// Ten to the thirtieth is `BOUND`; ten to the thirty-first exceeds it.
pub proof fn lemma_pow10_bound()
    ensures
        pow10(30) == BOUND,
        pow10(31) == 10 * BOUND,
{
    reveal_with_fuel(pow10, 32);
}

pub proof fn lemma_pow10_monotone(a: nat, b: nat)
    requires
        a <= b,
    ensures
        1 <= pow10(a) <= pow10(b),
    decreases b,
{
    lemma_pow10_positive(a);
    if a < b {
        lemma_pow10_monotone(a, (b - 1) as nat);
    }
}

/// `a * b`, if it is in range.
pub fn mul_in_range(a: i128, b: i128) -> (r: Option<i128>)
    requires
        in_range(a as int),
        in_range(b as int),
    ensures
        r == (if in_range(a * b) {
            Some((a * b) as i128)
        } else {
            None::<i128>
        }),
{
    match a.checked_mul(b) {
        Some(p) => {
            if -BOUND <= p && p <= BOUND {
                Some(p)
            } else {
                None
            }
        },
        None => None,
    }
}

/// `a + b`, if it is in range.
pub fn add_in_range(a: i128, b: i128) -> (r: Option<i128>)
    requires
        in_range(a as int),
        in_range(b as int),
    ensures
        r == (if in_range(a + b) {
            Some((a + b) as i128)
        } else {
            None::<i128>
        }),
{
    let s = a + b;
    if -BOUND <= s && s <= BOUND {
        Some(s)
    } else {
        None
    }
}

/// The value of a string of decimal digits.
pub open spec fn digits_value(ds: Seq<char>) -> int
    decreases ds.len(),
{
    if ds.len() == 0 {
        0
    } else {
        digits_value(ds.drop_last()) * 10 + (ds.last() as int - '0' as int)
    }
}

/// The end of the run of digits that starts at `i`.
pub open spec fn digit_run(s: Seq<char>, i: int) -> int
    decreases s.len() - i,
{
    if 0 <= i < s.len() && is_digit(s[i]) {
        digit_run(s, i + 1)
    } else {
        i
    }
}

proof fn lemma_digit_run(s: Seq<char>, i: int)
    requires
        0 <= i <= s.len(),
    ensures
        i <= digit_run(s, i) <= s.len(),
        digit_run(s, i) < s.len() ==> !is_digit(s[digit_run(s, i)]),
    decreases s.len() - i,
{
    if i < s.len() && is_digit(s[i]) {
        lemma_digit_run(s, i + 1);
    }
}

/// The parts of a decimal literal `digits [. digits] [(e|E) [+|-] digits]`:
/// its digits without the point, how many of them follow the point, and the
/// written power of ten. `None` if the text is not of that form.
pub open spec fn literal_parts(s: Seq<char>) -> Option<(Seq<char>, nat, int)> {
    let i = digit_run(s, 0);
    let (j, frac) = if i < s.len() && s[i] == '.' {
        (digit_run(s, i + 1), s.subrange(i + 1, digit_run(s, i + 1)))
    } else {
        (i, Seq::<char>::empty())
    };
    if i == 0 {
        None
    } else if j == s.len() {
        Some((s.subrange(0, i) + frac, frac.len(), 0))
    } else if s[j] == 'e' || s[j] == 'E' {
        let neg = j + 1 < s.len() && s[j + 1] == '-';
        let k = if j + 1 < s.len() && (s[j + 1] == '+' || s[j + 1] == '-') {
            j + 2
        } else {
            j + 1
        };
        let m = digit_run(s, k);
        if m == s.len() && m > k {
            let e = digits_value(s.subrange(k, m));
            Some((s.subrange(0, i) + frac, frac.len(), if neg {
                -e
            } else {
                e
            }))
        } else {
            None
        }
    } else {
        None
    }
}

/// The fraction `m * 10^(e - f)`, if it is in range.
pub open spec fn scaled(m: int, f: nat, e: int) -> Option<Ratio> {
    let t = e - f;
    if t >= 0 {
        Ratio::make(m * pow10(t as nat), 1)
    } else {
        Ratio::make(m, pow10((-t) as nat))
    }
}

/// The fraction that a decimal literal denotes, if it is in range.
pub open spec fn literal_value(s: Seq<char>) -> Option<Ratio> {
    match literal_parts(s) {
        None => None,
        Some((ds, f, e)) => if in_range(e) {
            scaled(digits_value(ds), f, e)
        } else {
            None
        },
    }
}

/// Reads the digits `s[from..to]` as a number, failing when it exceeds `BOUND`.
fn read_digits(s: &Vec<char>, from: usize, to: usize) -> (r: Option<i128>)
    requires
        from <= to <= s@.len(),
        forall|k: int| from <= k < to ==> is_digit(#[trigger] s@[k]),
    ensures
        r is Some <==> digits_value(s@.subrange(from as int, to as int)) <= BOUND,
        r is Some ==> r->0 == digits_value(s@.subrange(from as int, to as int)),
        r is Some ==> 0 <= r->0 <= BOUND,
{
    let mut v: i128 = 0;
    let mut i = from;
    while i < to
        invariant
            from <= i <= to <= s@.len(),
            forall|k: int| from <= k < to ==> is_digit(#[trigger] s@[k]),
            0 <= v <= BOUND,
            v == digits_value(s@.subrange(from as int, i as int)),
        decreases to - i,
    {
        let d = (s[i] as u32 - '0' as u32) as i128;
        proof {
            assert(s@.subrange(from as int, i + 1).drop_last() =~= s@.subrange(
                from as int,
                i as int,
            ));
        }
        if v > (BOUND - d) / 10 {
            proof {
                lemma_digits_grow(s@.subrange(from as int, to as int), (i - from) as int);
                assert(s@.subrange(from as int, to as int).subrange(0, i + 1 - from)
                    =~= s@.subrange(from as int, i + 1));
            }
            return None;
        }
        v = v * 10 + d;
        i += 1;
    }
    Some(v)
}

/// A longer prefix of a digit string is worth at least as much.
proof fn lemma_digits_grow(ds: Seq<char>, n: int)
    requires
        0 <= n < ds.len(),
        forall|k: int| 0 <= k < ds.len() ==> is_digit(#[trigger] ds[k]),
    ensures
        digits_value(ds) >= digits_value(ds.subrange(0, n + 1)),
        digits_value(ds.subrange(0, n + 1)) >= 0,
    decreases ds.len(),
{
    lemma_digits_nonneg(ds);
    lemma_digits_nonneg(ds.subrange(0, n + 1));
    if n + 1 < ds.len() {
        let dl = ds.drop_last();
        assert(dl.subrange(0, n + 1) =~= ds.subrange(0, n + 1));
        lemma_digits_grow(dl, n);
        lemma_digits_nonneg(dl);
    } else {
        assert(ds.subrange(0, n + 1) =~= ds);
    }
}

proof fn lemma_digits_nonneg(ds: Seq<char>)
    requires
        forall|k: int| 0 <= k < ds.len() ==> is_digit(#[trigger] ds[k]),
    ensures
        digits_value(ds) >= 0,
    decreases ds.len(),
{
    if ds.len() > 0 {
        lemma_digits_nonneg(ds.drop_last());
    }
}

/// The index of the end of the digit run from `i`.
fn digit_run_exec(s: &Vec<char>, i: usize) -> (r: usize)
    requires
        i <= s@.len(),
    ensures
        i <= r <= s@.len(),
        r == digit_run(s@, i as int),
        forall|k: int| i <= k < r ==> is_digit(#[trigger] s@[k]),
{
    proof {
        lemma_digit_run(s@, i as int);
    }
    let mut j = i;
    while j < s.len() && is_digit_exec(s[j])
        invariant
            i <= j <= s@.len(),
            digit_run(s@, j as int) == digit_run(s@, i as int),
            forall|k: int| i <= k < j ==> is_digit(#[trigger] s@[k]),
        decreases s@.len() - j,
    {
        j += 1;
    }
    j
}

/// The pieces of a decimal literal, as `literal_parts` describes them.
pub struct LiteralParts {
    pub digits: Vec<char>,
    pub frac: usize,
    pub exp: i128,
}

/// Splits a decimal literal into its pieces; `None` if it is not one, or if
/// its written power of ten is out of range.
fn split_literal(s: &Vec<char>) -> (r: Option<LiteralParts>)
    ensures
        match literal_parts(s@) {
            None => r is None,
            Some((ds, f, e)) => if in_range(e) {
                r is Some && r->0.digits@ == ds && r->0.frac == f && r->0.exp == e
            } else {
                r is None
            },
        },
        r is Some ==> forall|k: int|
            0 <= k < r->0.digits@.len() ==> is_digit(#[trigger] r->0.digits@[k]),
{
    let i = digit_run_exec(s, 0);
    let (j, fstart) = if i < s.len() && s[i] == '.' {
        (digit_run_exec(s, i + 1), i + 1)
    } else {
        (i, i)
    };
    if i == 0 {
        return None;
    }
    let exp: i128 = if j == s.len() {
        0
    } else if s[j] == 'e' || s[j] == 'E' {
        let neg = j + 1 < s.len() && s[j + 1] == '-';
        let k = if j + 1 < s.len() && (s[j + 1] == '+' || s[j + 1] == '-') {
            j + 2
        } else {
            j + 1
        };
        let m = digit_run_exec(s, k);
        if !(m == s.len() && m > k) {
            return None;
        }
        match read_digits(s, k, m) {
            Some(e) => if neg {
                -e
            } else {
                e
            },
            None => {
                return None;
            },
        }
    } else {
        return None;
    };
    // the digits before and after the point, as one string
    let mut ds: Vec<char> = Vec::new();
    let mut p: usize = 0;
    while p < i
        invariant
            p <= i <= s@.len(),
            ds@ == s@.subrange(0, p as int),
        decreases i - p,
    {
        ds.push(s[p]);
        proof {
            assert(s@.subrange(0, p + 1) =~= s@.subrange(0, p as int).push(s@[p as int]));
        }
        p += 1;
    }
    let mut q = fstart;
    while q < j
        invariant
            i <= fstart <= q <= j <= s@.len(),
            ds@ == s@.subrange(0, i as int) + s@.subrange(fstart as int, q as int),
        decreases j - q,
    {
        ds.push(s[q]);
        proof {
            assert(s@.subrange(fstart as int, q + 1) =~= s@.subrange(fstart as int, q as int).push(
                s@[q as int],
            ));
        }
        q += 1;
    }
    let ghost parts = literal_parts(s@);
    proof {
        let (pds, _, _) = parts->0;
        assert(ds@ =~= pds);
    }
    Some(LiteralParts { digits: ds, frac: j - fstart, exp })
}

/// The fraction `m * 10^(e - f)`, if it is in range.
fn scale_literal(m: i128, f: usize, e: i128) -> (r: Option<Ratio>)
    requires
        0 <= m <= BOUND,
        in_range(e as int),
    ensures
        r == scaled(m as int, f as nat, e as int),
        r is Some ==> r->0.wf(),
{
    let t: i128 = e - f as i128;
    if t >= 0 {
        if t > 30 {
            if m == 0 {
                return Some(reduce(Ratio { num: 0, den: 1 }));
            }
            proof {
                lemma_pow10_monotone(31, t as nat);
                lemma_pow10_bound();
                assert(m * pow10(t as nat) >= pow10(t as nat)) by (nonlinear_arith)
                    requires
                        m >= 1,
                        pow10(t as nat) >= 1,
                ;
            }
            return None;
        }
        let scale = pow10_exec(t as u32);
        let n = mul_in_range(m, scale)?;
        Some(reduce(Ratio { num: n, den: 1 }))
    } else {
        if t < -30 {
            proof {
                lemma_pow10_monotone(31, (-t) as nat);
                lemma_pow10_bound();
            }
            return None;
        }
        let scale = pow10_exec((-t) as u32);
        Some(reduce(Ratio { num: m, den: scale }))
    }
}

/// Reads a decimal literal such as `981`, `9.81` or `5e-3`.
pub fn parse_literal(s: &Vec<char>) -> (r: Option<Ratio>)
    ensures
        r == literal_value(s@),
        r is Some ==> r->0.wf(),
{
    let parts = split_literal(s)?;
    match read_digits(&parts.digits, 0, parts.digits.len()) {
        Some(m) => {
            proof {
                assert(parts.digits@.subrange(0, parts.digits@.len() as int) =~= parts.digits@);
            }
            scale_literal(m, parts.frac, parts.exp)
        },
        None => {
            proof {
                let ds = parts.digits@;
                assert(ds.subrange(0, ds.len() as int) =~= ds);
                lemma_digits_nonneg(ds);
                let t = parts.exp - parts.frac;
                if t >= 0 {
                    lemma_pow10_positive(t as nat);
                    assert(digits_value(ds) * pow10(t as nat) >= digits_value(ds))
                        by (nonlinear_arith)
                        requires
                            digits_value(ds) >= 0,
                            pow10(t as nat) >= 1,
                    ;
                }
            }
            None
        },
    }
}

/// The decimal digits of a natural number.
pub open spec fn nat_text(n: nat) -> Seq<char>
    decreases n,
{
    if n < 10 {
        seq![digit_char(n)]
    } else {
        nat_text(n / 10).push(digit_char(n % 10))
    }
}

pub open spec fn digit_char(d: nat) -> char {
    let d = d % 10;
    if d == 0 {
        '0'
    } else if d == 1 {
        '1'
    } else if d == 2 {
        '2'
    } else if d == 3 {
        '3'
    } else if d == 4 {
        '4'
    } else if d == 5 {
        '5'
    } else if d == 6 {
        '6'
    } else if d == 7 {
        '7'
    } else if d == 8 {
        '8'
    } else {
        '9'
    }
}

/// The decimal digits of a natural number, exactly `width` of them (the
/// number must be below ten to that power).
pub open spec fn padded_text(n: nat, width: nat) -> Seq<char>
    decreases width,
{
    if width == 0 {
        Seq::empty()
    } else {
        padded_text(n / 10, (width - 1) as nat).push(digit_char(n % 10))
    }
}

/// Writes the decimal digits of `n`.
pub fn push_nat(out: &mut String, n: u128)
    ensures
        final(out)@ == old(out)@ + nat_text(n as nat),
    decreases n,
{
    if n >= 10 {
        push_nat(out, n / 10);
    }
    let d = (n % 10) as u32;
    let c = char_of_digit(d);
    push_char(out, c);
    proof {
        assert(c == digit_char(n as nat));
        if n >= 10 {
            assert(final(out)@ =~= old(out)@ + nat_text(n as nat));
        } else {
            assert(final(out)@ =~= old(out)@ + nat_text(n as nat));
        }
    }
}

fn char_of_digit(d: u32) -> (c: char)
    requires
        d < 10,
    ensures
        c == digit_char(d as nat),
{
    if d == 0 {
        '0'
    } else if d == 1 {
        '1'
    } else if d == 2 {
        '2'
    } else if d == 3 {
        '3'
    } else if d == 4 {
        '4'
    } else if d == 5 {
        '5'
    } else if d == 6 {
        '6'
    } else if d == 7 {
        '7'
    } else if d == 8 {
        '8'
    } else {
        '9'
    }
}

/// Writes exactly `width` decimal digits of `n`, with leading zeros.
pub fn push_padded(out: &mut String, n: u128, width: u32)
    ensures
        final(out)@ == old(out)@ + padded_text(n as nat, width as nat),
    decreases width,
{
    if width > 0 {
        push_padded(out, n / 10, width - 1);
        let c = char_of_digit((n % 10) as u32);
        push_char(out, c);
        proof {
            assert(final(out)@ =~= old(out)@ + padded_text(n as nat, width as nat));
        }
    } else {
        proof {
            assert(final(out)@ =~= old(out)@ + padded_text(n as nat, width as nat));
        }
    }
}

/// Rounds `n / d` to the nearest whole number, ties to even.
pub open spec fn round_div(n: nat, d: nat) -> nat
    recommends
        d > 0,
{
    let q = n / d;
    let r = n % d;
    if 2 * r > d || (2 * r == d && q % 2 == 1) {
        q + 1
    } else {
        q
    }
}

/// The value of a fraction in ten-thousandths, rounded to nearest, ties to even.
pub open spec fn ten_thousandths(v: Ratio) -> nat {
    round_div((if v.num < 0 {
        -v.num
    } else {
        v.num as int
    } * 10000) as nat, v.den as nat)
}

/// The text of a fraction with four decimal places, as `-12.3450`.
pub open spec fn fixed4_text(v: Ratio) -> Seq<char> {
    let q = ten_thousandths(v);
    (if v.num < 0 {
        seq!['-']
    } else {
        Seq::empty()
    }) + nat_text(q / 10000) + seq!['.'] + padded_text(q % 10000, 4)
}

/// Writes a fraction with four decimal places.
pub fn push_fixed4(out: &mut String, v: &Ratio)
    requires
        v.wf(),
    ensures
        final(out)@ == old(out)@ + fixed4_text(*v),
{
    let neg = v.num < 0;
    let a: u128 = if neg {
        (-v.num) as u128
    } else {
        v.num as u128
    };
    let d = v.den as u128;
    let scaled = a * 10000;
    let q0 = scaled / d;
    let r = scaled % d;
    let q = if 2 * r > d || (2 * r == d && q0 % 2 == 1) {
        q0 + 1
    } else {
        q0
    };
    let ghost start = out@;
    if neg {
        push_char(out, '-');
    }
    push_nat(out, q / 10000);
    push_char(out, '.');
    push_padded(out, q % 10000, 4);
    proof {
        assert(q == ten_thousandths(*v));
        assert(out@ =~= start + fixed4_text(*v));
    }
}

} // verus!
