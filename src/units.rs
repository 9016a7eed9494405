//! The unit table, SI prefixes, and the reading of unit suffixes such as
//! `kg`, `m_2`, `kPa` or `s2`.
//!
//! Powers of base dimensions are kept exactly as whole multiples of
//! `1 / POWER_ONE`, so that square roots can halve them.

use vstd::prelude::*;
use crate::number::{digit_char, nat_text, push_nat, Ratio};
use crate::text::push_char;
use crate::text::starts_with;
use crate::token::{is_digit, is_digit_exec, is_letter, is_letter_exec};

verus! {

/// A power of one: exponents are stored in units of `1 / POWER_ONE`.
pub const POWER_ONE: i64 = 65536;

/// The number of base dimensions: kg, m, s, A, K, mol.
pub const DIMENSIONS: usize = 6;

/// Powers of the six base dimensions, in units of `1 / POWER_ONE`.
pub type Dims = [i64; 6];

/// The number of entries of the unit table.
pub const UNIT_COUNT: usize = 17;

/// The name of the unit table's entry `i`.
pub open spec fn unit_name(i: int) -> Seq<char> {
    if i == 0 {
        seq!['k', 'g']
    } else if i == 1 {
        seq!['g']
    } else if i == 2 {
        seq!['m']
    } else if i == 3 {
        seq!['s']
    } else if i == 4 {
        seq!['A']
    } else if i == 5 {
        seq!['K']
    } else if i == 6 {
        seq!['m', 'o', 'l']
    } else if i == 7 {
        seq!['N']
    } else if i == 8 {
        seq!['P', 'a']
    } else if i == 9 {
        seq!['L']
    } else if i == 10 {
        seq!['H', 'z']
    } else if i == 11 {
        seq!['J']
    } else if i == 12 {
        seq!['W']
    } else if i == 13 {
        seq!['C']
    } else if i == 14 {
        seq!['V']
    } else if i == 15 {
        seq!['\u{3a9}']
    } else {
        seq!['F']
    }
}

/// What one of the unit table's entry `i` is worth in base units.
pub open spec fn unit_multiplier(i: int) -> Ratio {
    if i == 1 || i == 9 {
        Ratio { num: 1, den: 1000 }
    } else {
        Ratio { num: 1, den: 1 }
    }
}

/// The whole powers of kg, m, s, A, K and mol in the unit table's entry `i`.
pub open spec fn unit_powers(i: int) -> Seq<int> {
    if i == 0 || i == 1 {
        seq![1, 0, 0, 0, 0, 0]
    } else if i == 2 {
        seq![0, 1, 0, 0, 0, 0]
    } else if i == 3 {
        seq![0, 0, 1, 0, 0, 0]
    } else if i == 4 {
        seq![0, 0, 0, 1, 0, 0]
    } else if i == 5 {
        seq![0, 0, 0, 0, 1, 0]
    } else if i == 6 {
        seq![0, 0, 0, 0, 0, 1]
    } else if i == 7 {
        seq![1, 1, -2, 0, 0, 0]
    } else if i == 8 {
        seq![1, -1, -2, 0, 0, 0]
    } else if i == 9 {
        seq![0, 3, 0, 0, 0, 0]
    } else if i == 10 {
        seq![0, 0, -1, 0, 0, 0]
    } else if i == 11 {
        seq![1, 2, -2, 0, 0, 0]
    } else if i == 12 {
        seq![1, 2, -3, 0, 0, 0]
    } else if i == 13 {
        seq![0, 0, 1, 1, 0, 0]
    } else if i == 14 {
        seq![1, 2, -3, -1, 0, 0]
    } else if i == 15 {
        seq![1, 2, -3, -2, 0, 0]
    } else {
        seq![-1, -2, 4, 2, 0, 0]
    }
}

/// The powers of entry `i`, in units of `1 / POWER_ONE`.
pub open spec fn unit_dims(i: int) -> Seq<int> {
    unit_powers(i).map_values(|p: int| p * POWER_ONE)
}

/// The name of base dimension `d`.
pub open spec fn base_name(d: int) -> Seq<char> {
    if d == 0 {
        seq!['k', 'g']
    } else if d == 1 {
        seq!['m']
    } else if d == 2 {
        seq!['s']
    } else if d == 3 {
        seq!['A']
    } else if d == 4 {
        seq!['K']
    } else {
        seq!['m', 'o', 'l']
    }
}

/// The factor of a single-character SI prefix.
pub open spec fn prefix_factor(c: char) -> Option<Ratio> {
    if c == 'n' {
        Some(Ratio { num: 1, den: 1_000_000_000 })
    } else if c == 'u' {
        Some(Ratio { num: 1, den: 1_000_000 })
    } else if c == 'm' {
        Some(Ratio { num: 1, den: 1000 })
    } else if c == 'c' {
        Some(Ratio { num: 1, den: 100 })
    } else if c == 'k' {
        Some(Ratio { num: 1000, den: 1 })
    } else if c == 'M' {
        Some(Ratio { num: 1_000_000, den: 1 })
    } else if c == 'G' {
        Some(Ratio { num: 1_000_000_000, den: 1 })
    } else {
        None
    }
}

/// One entry of the unit table.
pub struct UnitEntry {
    pub name: &'static str,
    pub multiplier: Ratio,
    pub dims: Dims,
}

/// The unit table's entry `i`.
pub fn unit_entry(i: usize) -> (r: UnitEntry)
    requires
        i < UNIT_COUNT,
    ensures
        r.name@ == unit_name(i as int),
        r.multiplier == unit_multiplier(i as int),
        dims_view(r.dims) == unit_dims(i as int),
        r.multiplier.wf(),
{
    let o = POWER_ONE;
    let r = if i == 0 {
        UnitEntry { name: "kg", multiplier: Ratio { num: 1, den: 1 }, dims: [o, 0, 0, 0, 0, 0] }
    } else if i == 1 {
        UnitEntry { name: "g", multiplier: Ratio { num: 1, den: 1000 }, dims: [o, 0, 0, 0, 0, 0] }
    } else if i == 2 {
        UnitEntry { name: "m", multiplier: Ratio { num: 1, den: 1 }, dims: [0, o, 0, 0, 0, 0] }
    } else if i == 3 {
        UnitEntry { name: "s", multiplier: Ratio { num: 1, den: 1 }, dims: [0, 0, o, 0, 0, 0] }
    } else if i == 4 {
        UnitEntry { name: "A", multiplier: Ratio { num: 1, den: 1 }, dims: [0, 0, 0, o, 0, 0] }
    } else if i == 5 {
        UnitEntry { name: "K", multiplier: Ratio { num: 1, den: 1 }, dims: [0, 0, 0, 0, o, 0] }
    } else if i == 6 {
        UnitEntry { name: "mol", multiplier: Ratio { num: 1, den: 1 }, dims: [0, 0, 0, 0, 0, o] }
    } else if i == 7 {
        UnitEntry {
            name: "N",
            multiplier: Ratio { num: 1, den: 1 },
            dims: [o, o, -2 * o, 0, 0, 0],
        }
    } else if i == 8 {
        UnitEntry {
            name: "Pa",
            multiplier: Ratio { num: 1, den: 1 },
            dims: [o, -o, -2 * o, 0, 0, 0],
        }
    } else if i == 9 {
        UnitEntry {
            name: "L",
            multiplier: Ratio { num: 1, den: 1000 },
            dims: [0, 3 * o, 0, 0, 0, 0],
        }
    } else if i == 10 {
        UnitEntry { name: "Hz", multiplier: Ratio { num: 1, den: 1 }, dims: [0, 0, -o, 0, 0, 0] }
    } else if i == 11 {
        UnitEntry {
            name: "J",
            multiplier: Ratio { num: 1, den: 1 },
            dims: [o, 2 * o, -2 * o, 0, 0, 0],
        }
    } else if i == 12 {
        UnitEntry {
            name: "W",
            multiplier: Ratio { num: 1, den: 1 },
            dims: [o, 2 * o, -3 * o, 0, 0, 0],
        }
    } else if i == 13 {
        UnitEntry { name: "C", multiplier: Ratio { num: 1, den: 1 }, dims: [0, 0, o, o, 0, 0] }
    } else if i == 14 {
        UnitEntry {
            name: "V",
            multiplier: Ratio { num: 1, den: 1 },
            dims: [o, 2 * o, -3 * o, -o, 0, 0],
        }
    } else if i == 15 {
        UnitEntry {
            name: "\u{3a9}",
            multiplier: Ratio { num: 1, den: 1 },
            dims: [o, 2 * o, -3 * o, -2 * o, 0, 0],
        }
    } else {
        UnitEntry {
            name: "F",
            multiplier: Ratio { num: 1, den: 1 },
            dims: [-o, -2 * o, 4 * o, 2 * o, 0, 0],
        }
    };
    proof {
        reveal_strlit("kg");
        reveal_strlit("g");
        reveal_strlit("m");
        reveal_strlit("s");
        reveal_strlit("A");
        reveal_strlit("K");
        reveal_strlit("mol");
        reveal_strlit("N");
        reveal_strlit("Pa");
        reveal_strlit("L");
        reveal_strlit("Hz");
        reveal_strlit("J");
        reveal_strlit("W");
        reveal_strlit("C");
        reveal_strlit("V");
        reveal_strlit("\u{3a9}");
        reveal_strlit("F");
        assert(dims_view(r.dims) =~= unit_dims(i as int));
        assert(r.name@ =~= unit_name(i as int));
    }
    r
}

/// The name of base dimension `d`.
pub fn base_name_exec(d: usize) -> (r: &'static str)
    requires
        d < DIMENSIONS,
    ensures
        r@ == base_name(d as int),
{
    proof {
        reveal_strlit("kg");
        reveal_strlit("m");
        reveal_strlit("s");
        reveal_strlit("A");
        reveal_strlit("K");
        reveal_strlit("mol");
    }
    if d == 0 {
        "kg"
    } else if d == 1 {
        "m"
    } else if d == 2 {
        "s"
    } else if d == 3 {
        "A"
    } else if d == 4 {
        "K"
    } else {
        "mol"
    }
}

/// The factor of a single-character SI prefix.
pub fn prefix_factor_exec(c: char) -> (r: Option<Ratio>)
    ensures
        r == prefix_factor(c),
        r is Some ==> r->0.wf(),
{
    if c == 'n' {
        Some(Ratio { num: 1, den: 1_000_000_000 })
    } else if c == 'u' {
        Some(Ratio { num: 1, den: 1_000_000 })
    } else if c == 'm' {
        Some(Ratio { num: 1, den: 1000 })
    } else if c == 'c' {
        Some(Ratio { num: 1, den: 100 })
    } else if c == 'k' {
        Some(Ratio { num: 1000, den: 1 })
    } else if c == 'M' {
        Some(Ratio { num: 1_000_000, den: 1 })
    } else if c == 'G' {
        Some(Ratio { num: 1_000_000_000, den: 1 })
    } else {
        None
    }
}

/// The first entry from `i` on of the unit table with exactly this name
/// (`UNIT_COUNT` if there is none).
pub open spec fn unit_index_from(s: Seq<char>, i: int) -> int
    decreases UNIT_COUNT - i,
{
    if i >= UNIT_COUNT || i < 0 {
        UNIT_COUNT as int
    } else if unit_name(i) == s {
        i
    } else {
        unit_index_from(s, i + 1)
    }
}

/// The first entry of the unit table with exactly this name.
pub open spec fn unit_index(s: Seq<char>) -> int {
    unit_index_from(s, 0)
}

/// Does some entry of the unit table have exactly this name?
pub open spec fn is_unit_name(s: Seq<char>) -> bool {
    unit_index(s) < UNIT_COUNT
}

/// The first entry of the unit table with exactly this name.
pub fn find_unit(s: &Vec<char>) -> (r: Option<usize>)
    ensures
        r is Some ==> r->0 < UNIT_COUNT && r->0 == unit_index(s@),
        r is None ==> !is_unit_name(s@),
{
    let mut i: usize = 0;
    while i < UNIT_COUNT
        invariant
            i <= UNIT_COUNT,
            unit_index_from(s@, i as int) == unit_index(s@),
        decreases UNIT_COUNT - i,
    {
        let e = unit_entry(i);
        if starts_with(s, e.name) && s.len() == e.name.unicode_len() {
            proof {
                assert(s@.subrange(0, s@.len() as int) =~= s@);
            }
            return Some(i);
        }
        proof {
            if unit_name(i as int) == s@ {
                assert(s@.subrange(0, s@.len() as int) =~= s@);
            }
        }
        i += 1;
    }
    None
}

/// Does a word begin with a unit name or an SI prefix? Such a word, after a
/// number, is read as a unit.
pub open spec fn looks_like_unit(s: Seq<char>) -> bool {
    (exists|i: int|
        0 <= i < UNIT_COUNT && unit_name(i).len() <= s.len() && #[trigger] s.subrange(
            0,
            unit_name(i).len() as int,
        ) == unit_name(i)) || (s.len() > 0 && prefix_factor(s[0]) is Some)
}

/// Checks if a word is in the form of a unit.
pub fn check_unit(s: &Vec<char>) -> (r: bool)
    ensures
        r == looks_like_unit(s@),
{
    let mut i: usize = 0;
    while i < UNIT_COUNT
        invariant
            i <= UNIT_COUNT,
            forall|k: int|
                0 <= k < i ==> !(unit_name(k).len() <= s@.len() && #[trigger] s@.subrange(
                    0,
                    unit_name(k).len() as int,
                ) == unit_name(k)),
        decreases UNIT_COUNT - i,
    {
        let e = unit_entry(i);
        if starts_with(s, e.name) {
            return true;
        }
        i += 1;
    }
    s.len() > 0 && prefix_factor_exec(s[0]).is_some()
}

/// The letters of a word, in order.
pub open spec fn letters_of(s: Seq<char>) -> Seq<char>
    decreases s.len(),
{
    if s.len() == 0 {
        Seq::empty()
    } else if is_letter(s.last()) {
        letters_of(s.drop_last()).push(s.last())
    } else {
        letters_of(s.drop_last())
    }
}

/// The digits of a word, in order.
pub open spec fn digits_of(s: Seq<char>) -> Seq<char>
    decreases s.len(),
{
    if s.len() == 0 {
        Seq::empty()
    } else if is_digit(s.last()) {
        digits_of(s.drop_last()).push(s.last())
    } else {
        digits_of(s.drop_last())
    }
}

/// The largest written unit exponent: what a machine word holds.
pub const MAX_EXPONENT: i64 = 0x7fff_ffff_ffff_ffff;

/// The exponent written in a unit word: its digits, negated when the word
/// holds `_`; one when it holds no digit. `None` when the digits do not fit
/// a machine word.
pub open spec fn written_exponent(s: Seq<char>) -> Option<int> {
    let ds = digits_of(s);
    let v = crate::number::digits_value(ds);
    if ds.len() == 0 {
        Some(if s.contains('_') {
            -1
        } else {
            1
        })
    } else if v > MAX_EXPONENT {
        None
    } else {
        Some(if s.contains('_') {
            -v
        } else {
            v
        })
    }
}

/// Splits a unit word into its letters and its written exponent.
pub fn split_string(s: &Vec<char>) -> (r: (Vec<char>, Option<i64>))
    ensures
        r.0@ == letters_of(s@),
        r.1 is Some <==> written_exponent(s@) is Some,
        r.1 is Some ==> written_exponent(s@)->0 == r.1->0 as int,
        r.1 is Some ==> -MAX_EXPONENT <= r.1->0 <= MAX_EXPONENT,
{
    let mut alpha: Vec<char> = Vec::new();
    let mut value: i64 = 0;
    let mut ndigits: usize = 0;
    let mut too_large = false;
    let mut negative = false;
    let mut i: usize = 0;
    while i < s.len()
        invariant
            i <= s@.len(),
            ndigits <= i,
            alpha@ == letters_of(s@.subrange(0, i as int)),
            ndigits == digits_of(s@.subrange(0, i as int)).len(),
            too_large == (crate::number::digits_value(digits_of(s@.subrange(0, i as int)))
                > MAX_EXPONENT),
            !too_large ==> value == crate::number::digits_value(
                digits_of(s@.subrange(0, i as int)),
            ),
            0 <= value <= MAX_EXPONENT,
            negative == s@.subrange(0, i as int).contains('_'),
            crate::number::digits_value(digits_of(s@.subrange(0, i as int))) >= 0,
        decreases s@.len() - i,
    {
        let c = s[i];
        let ghost prev = s@.subrange(0, i as int);
        let ghost next = s@.subrange(0, i + 1);
        proof {
            assert(next.drop_last() =~= prev);
            assert(next.last() == c);
            if next.contains('_') && c != '_' {
                let k = choose|k: int| 0 <= k < next.len() && next[k] == '_';
                assert(prev[k] == '_');
            }
            if prev.contains('_') {
                let k = choose|k: int| 0 <= k < prev.len() && prev[k] == '_';
                assert(next[k] == '_');
            }
            if c == '_' {
                assert(next[i as int] == '_');
            }
        }
        if is_letter_exec(c) {
            alpha.push(c);
        } else if is_digit_exec(c) {
            let d = (c as u32 - '0' as u32) as i64;
            ndigits += 1;
            proof {
                assert(digits_of(next) == digits_of(prev).push(c));
                assert(digits_of(next).drop_last() =~= digits_of(prev));
            }
            if !too_large {
                if value > (MAX_EXPONENT - d) / 10 {
                    proof {
                        assert(value * 10 + d > MAX_EXPONENT) by (nonlinear_arith)
                            requires
                                value > (MAX_EXPONENT - d) / 10,
                                0 <= d <= 9,
                        ;
                    }
                    too_large = true;
                } else {
                    proof {
                        assert(value * 10 + d <= MAX_EXPONENT) by (nonlinear_arith)
                            requires
                                value <= (MAX_EXPONENT - d) / 10,
                                0 <= d <= 9,
                                value >= 0,
                        ;
                    }
                    value = value * 10 + d;
                }
            } else {
                proof {
                    assert(crate::number::digits_value(digits_of(next)) >= crate::number::digits_value(
                        digits_of(prev),
                    ) * 10) by (nonlinear_arith)
                        requires
                            crate::number::digits_value(digits_of(next))
                                == crate::number::digits_value(digits_of(prev)) * 10 + (d as int),
                            d >= 0,
                    ;
                    assert(crate::number::digits_value(digits_of(prev)) * 10 >= crate::number::digits_value(
                        digits_of(prev),
                    )) by (nonlinear_arith)
                        requires
                            crate::number::digits_value(digits_of(prev)) >= 0,
                    ;
                }
            }
        } else if c == '_' {
            negative = true;
        }
        i += 1;
    }
    proof {
        assert(s@.subrange(0, s@.len() as int) =~= s@);
    }
    let exp = if ndigits == 0 {
        if negative {
            Some(-1i64)
        } else {
            Some(1i64)
        }
    } else if too_large {
        None
    } else if negative {
        Some(-value)
    } else {
        Some(value)
    };
    (alpha, exp)
}

/// `r` raised to the `n`th power, exact while every partial product is in range.
pub open spec fn power_spec(r: Ratio, n: nat) -> Option<Ratio>
    decreases n,
{
    if n == 0 {
        Some(Ratio { num: 1, den: 1 })
    } else {
        match power_spec(r, (n - 1) as nat) {
            Some(p) => Ratio::product_spec(p, r),
            None => None,
        }
    }
}

/// The reciprocal of a nonzero fraction.
pub open spec fn reciprocal(r: Ratio) -> Ratio {
    if r.num > 0 {
        Ratio { num: r.den, den: r.num }
    } else {
        Ratio { num: (-r.den) as i128, den: (-r.num) as i128 }
    }
}

/// `r` raised to the whole power `k`, which may be negative.
pub open spec fn int_power_spec(r: Ratio, k: int) -> Option<Ratio> {
    if k >= 0 {
        power_spec(r, k as nat)
    } else if r.num == 0 {
        None
    } else {
        power_spec(reciprocal(r), (-k) as nat)
    }
}

pub fn int_power(r: Ratio, k: i64) -> (p: Option<Ratio>)
    requires
        r.wf(),
        -MAX_EXPONENT <= k <= MAX_EXPONENT,
    ensures
        p == int_power_spec(r, k as int),
        p is Some ==> p->0.wf(),
{
    let base = if k >= 0 {
        r
    } else if r.num == 0 {
        return None;
    } else if r.num > 0 {
        Ratio { num: r.den, den: r.num }
    } else {
        Ratio { num: -r.den, den: -r.num }
    };
    let n: i64 = if k >= 0 {
        k
    } else {
        -k
    };
    if base.num == 1 && base.den == 1 {
        proof {
            lemma_power_of_one(n as nat);
        }
        return Some(base);
    }
    let mut acc = Ratio { num: 1, den: 1 };
    let mut i: i64 = 0;
    while i < n
        invariant
            0 <= i <= n,
            base.wf(),
            acc.wf(),
            power_spec(base, i as nat) == Some(acc),
            n == (if k >= 0 {
                k as int
            } else {
                -k
            }),
            base == (if k >= 0 {
                r
            } else {
                reciprocal(r)
            }),
        decreases n - i,
    {
        match acc.mul(&base) {
            Some(next) => {
                acc = next;
            },
            None => {
                proof {
                    lemma_power_none(base, (i + 1) as nat, n as nat);
                }
                return None;
            },
        }
        i += 1;
    }
    Some(acc)
}

/// Every power of one is one.
proof fn lemma_power_of_one(n: nat)
    ensures
        power_spec(Ratio { num: 1, den: 1 }, n) == Some(Ratio { num: 1, den: 1 }),
    decreases n,
{
    if n > 0 {
        lemma_power_of_one((n - 1) as nat);
        let one = Ratio { num: 1, den: 1 };
        assert(1nat % 1nat == 0);
        assert(crate::number::gcd(1, 0) == 1);
        assert(crate::number::gcd(1, 1) == crate::number::gcd(1, 0));
        assert(crate::number::abs(1) == 1);
        assert(crate::number::lowest_terms(one) == one);
        assert(Ratio::product_spec(one, one) == Some(one));
    }
}

proof fn lemma_power_none(r: Ratio, a: nat, b: nat)
    requires
        a <= b,
        power_spec(r, a) is None,
    ensures
        power_spec(r, b) is None,
    decreases b - a,
{
    if a < b {
        lemma_power_none(r, a + 1, b);
    }
}

/// What a unit word denotes: a multiplier and powers of the base dimensions.
/// A word that is itself a unit name is read whole (`kg`, `mol`, `m`);
/// otherwise a leading SI prefix is taken off first.
pub open spec fn unit_value(s: Seq<char>) -> Option<(Ratio, Seq<int>)> {
    let whole = is_unit_name(letters_of(s));
    let (factor, rest) = if !whole && s.len() > 0 && prefix_factor(s[0]) is Some {
        (prefix_factor(s[0])->0, s.subrange(1, s.len() as int))
    } else {
        (Ratio { num: 1, den: 1 }, s)
    };
    let name = letters_of(rest);
    if !is_unit_name(name) {
        None
    } else {
        let u = unit_index(name);
        match written_exponent(rest) {
            None => None,
            Some(k) => match Ratio::product_spec(factor, unit_multiplier(u)) {
                None => None,
                Some(m) => match int_power_spec(m, k) {
                    None => None,
                    Some(p) => if powers_fit(unit_dims(u).map_values(|d: int| d * k)) {
                        Some((p, unit_dims(u).map_values(|d: int| d * k)))
                    } else {
                        None
                    },
                },
            },
        }
    }
}

proof fn lemma_unit_powers_small(i: int)
    ensures
        unit_powers(i).len() == 6,
        forall|j: int| 0 <= j < 6 ==> -6 <= #[trigger] unit_powers(i)[j] <= 6,
{
}

/// Do all powers fit a machine word?
pub open spec fn powers_fit(d: Seq<int>) -> bool {
    forall|j: int| 0 <= j < d.len() ==> i64::MIN <= #[trigger] d[j] <= i64::MAX
}

/// What a unit word denotes.
pub struct UnitValue {
    pub multiplier: Ratio,
    pub dims: Dims,
}

/// The powers of a quantity, as integers.
pub open spec fn dims_view(d: Dims) -> Seq<int> {
    d@.map_values(|x: i64| x as int)
}

/// Are the powers equal, dimension by dimension?
pub fn dims_equal(a: &Dims, b: &Dims) -> (r: bool)
    ensures
        r == (dims_view(*a) == dims_view(*b)),
{
    let r = a[0] == b[0] && a[1] == b[1] && a[2] == b[2] && a[3] == b[3] && a[4] == b[4] && a[5]
        == b[5];
    proof {
        if r {
            assert(dims_view(*a) =~= dims_view(*b));
        } else {
            if dims_view(*a) == dims_view(*b) {
                assert(dims_view(*a)[0] == dims_view(*b)[0]);
                assert(dims_view(*a)[1] == dims_view(*b)[1]);
                assert(dims_view(*a)[2] == dims_view(*b)[2]);
                assert(dims_view(*a)[3] == dims_view(*b)[3]);
                assert(dims_view(*a)[4] == dims_view(*b)[4]);
                assert(dims_view(*a)[5] == dims_view(*b)[5]);
            }
        }
    }
    r
}

/// Reads a unit word; `None` if it names no unit or its exponent or
/// multiplier is out of range.
pub fn parse_unit(s: &Vec<char>) -> (r: Option<UnitValue>)
    ensures
        match unit_value(s@) {
            None => r is None,
            Some((m, d)) => r is Some && r->0.multiplier == m && dims_view(r->0.dims) == d,
        },
        r is Some ==> r->0.multiplier.wf(),
{
    let (al, _) = split_string(s);
    let whole = find_unit(&al).is_some();
    let mut rest: Vec<char> = Vec::new();
    let factor = if !whole && s.len() > 0 && prefix_factor_exec(s[0]).is_some() {
        let mut i: usize = 1;
        while i < s.len()
            invariant
                1 <= i <= s@.len(),
                rest@ == s@.subrange(1, i as int),
            decreases s@.len() - i,
        {
            rest.push(s[i]);
            proof {
                assert(s@.subrange(1, i + 1) =~= s@.subrange(1, i as int).push(s@[i as int]));
            }
            i += 1;
        }
        prefix_factor_exec(s[0]).unwrap()
    } else {
        let mut i: usize = 0;
        while i < s.len()
            invariant
                i <= s@.len(),
                rest@ == s@.subrange(0, i as int),
            decreases s@.len() - i,
        {
            rest.push(s[i]);
            proof {
                assert(s@.subrange(0, i + 1) =~= s@.subrange(0, i as int).push(s@[i as int]));
            }
            i += 1;
        }
        proof {
            assert(rest@ =~= s@);
        }
        Ratio { num: 1, den: 1 }
    };
    let (name, exp) = split_string(&rest);
    let u = match find_unit(&name) {
        Some(u) => u,
        None => {
            return None;
        },
    };
    let k = match exp {
        Some(k) => k,
        None => {
            return None;
        },
    };
    let entry = unit_entry(u);
    let m = match factor.mul(&entry.multiplier) {
        Some(m) => m,
        None => {
            return None;
        },
    };
    proof {
        assert(Ratio::product_spec(factor, unit_multiplier(u as int)) == Some(m));
    }
    let p = match int_power(m, k) {
        Some(p) => p,
        None => {
            proof {
                assert(int_power_spec(m, k as int) is None);
                assert(written_exponent(rest@) == Some(k as int));
            }
            return None;
        },
    };
    let d = entry.dims;
    proof {
        lemma_unit_powers_small(u as int);
        assert forall|j: int| 0 <= j < 6 implies -6 * POWER_ONE <= #[trigger] d@[j] <= 6
            * POWER_ONE by {
            assert(dims_view(d)[j] == d@[j]);
            assert(unit_dims(u as int)[j] == unit_powers(u as int)[j] * POWER_ONE);
        }
    }
    proof {
        assert(written_exponent(rest@) == Some(k as int));
        assert(int_power_spec(m, k as int) == Some(p));
    }
    let ghost want = unit_dims(u as int).map_values(|x: int| x * k);
    let mut dims: Dims = [0, 0, 0, 0, 0, 0];
    let mut ok = true;
    let mut j: usize = 0;
    while j < DIMENSIONS
        invariant
            j <= DIMENSIONS,
            want == unit_dims(u as int).map_values(|x: int| x * k),
            want.len() == DIMENSIONS,
            forall|t: int| 0 <= t < DIMENSIONS ==> #[trigger] want[t] == d@[t] * k,
            ok ==> forall|t: int| 0 <= t < j ==> #[trigger] dims@[t] as int == want[t],
            !ok ==> !powers_fit(want),
        decreases DIMENSIONS - j,
    {
        match d[j].checked_mul(k) {
            Some(v) => {
                dims[j] = v;
            },
            None => {
                proof {
                    assert(!(i64::MIN <= want[j as int] <= i64::MAX));
                }
                ok = false;
            },
        }
        j += 1;
    }
    if !ok {
        return None;
    }
    proof {
        assert(dims_view(dims) =~= want) by {
            assert forall|t: int| 0 <= t < DIMENSIONS implies dims_view(dims)[t] == want[t] by {
                assert(dims@[t] as int == want[t]);
            }
        }
        assert(powers_fit(want)) by {
            assert forall|t: int| 0 <= t < want.len() implies i64::MIN <= #[trigger] want[t]
                <= i64::MAX by {
                assert(dims@[t] as int == want[t]);
            }
        }
    }
    Some(UnitValue { multiplier: p, dims })
}

/// The decimal digits of the fraction `r / POWER_ONE`, at most `fuel` of
/// them, without trailing zeros.
pub open spec fn fraction_digits(r: nat, fuel: nat) -> Seq<char>
    decreases fuel,
{
    if fuel == 0 || r == 0 {
        Seq::empty()
    } else {
        seq![digit_char(r * 10 / POWER_ONE as nat)] + fraction_digits(
            (r * 10) % POWER_ONE as nat,
            (fuel - 1) as nat,
        )
    }
}

/// The text of a power: `2`, `-1`, `0.5`, `-1.25`.
pub open spec fn power_text(p: int) -> Seq<char> {
    let a = if p < 0 {
        -p
    } else {
        p
    };
    let whole = nat_text((a / POWER_ONE as int) as nat);
    let frac = (a % POWER_ONE as int) as nat;
    (if p < 0 {
        seq!['-']
    } else {
        Seq::empty()
    }) + whole + if frac == 0 {
        Seq::empty()
    } else {
        seq!['.'] + fraction_digits(frac, 16)
    }
}

fn push_fraction_digits(out: &mut String, r: u64, fuel: u32)
    requires
        r < POWER_ONE,
    ensures
        final(out)@ == old(out)@ + fraction_digits(r as nat, fuel as nat),
    decreases fuel,
{
    if fuel == 0 || r == 0 {
        proof {
            assert(final(out)@ =~= old(out)@ + fraction_digits(r as nat, fuel as nat));
        }
        return;
    }
    let t = r * 10;
    let d = t / (POWER_ONE as u64);
    let c = if d == 0 {
        '0'
    } else if d == 1 {
        '1'
    } else if d == 2 {
        '2'
    } else if d == 3 {
        '3'
    } else if d == 4 {
        '4'
    } else if d == 5 {
        '5'
    } else if d == 6 {
        '6'
    } else if d == 7 {
        '7'
    } else if d == 8 {
        '8'
    } else {
        '9'
    };
    push_char(out, c);
    let ghost mid = out@;
    push_fraction_digits(out, t % (POWER_ONE as u64), fuel - 1);
    proof {
        assert(d < 10) by (nonlinear_arith)
            requires
                d == t / 65536,
                t == r * 10,
                r < 65536,
        ;
        assert(d as nat == r as nat * 10 / POWER_ONE as nat);
        assert(d as nat % 10 == d as nat);
        assert(c == digit_char(d as nat));
        assert(c == digit_char(r as nat * 10 / POWER_ONE as nat));
        assert(final(out)@ =~= old(out)@ + fraction_digits(r as nat, fuel as nat));
    }
}

/// Writes a power as `power_text` spells it.
pub fn push_power(out: &mut String, p: i64)
    ensures
        final(out)@ == old(out)@ + power_text(p as int),
{
    let a: u64 = if p < 0 {
        (-(p as i128)) as u64
    } else {
        p as u64
    };
    let ghost start = out@;
    if p < 0 {
        push_char(out, '-');
    }
    push_nat(out, (a / (POWER_ONE as u64)) as u128);
    let frac = a % (POWER_ONE as u64);
    if frac != 0 {
        push_char(out, '.');
        push_fraction_digits(out, frac, 16);
    }
    proof {
        assert(out@ =~= start + power_text(p as int));
    }
}

} // verus!
