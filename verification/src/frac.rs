//! Exact rational fractions in lowest terms, with checked arithmetic.
//!
//! Durations and time signatures are rational fractions of a whole note;
//! measure validation compares such fractions exactly, so the arithmetic
//! here is exact: a fraction is an unsigned numerator/denominator pair,
//! always reduced to lowest terms.

use vstd::prelude::*;
use vstd::arithmetic::div_mod::lemma_fundamental_div_mod;
use vstd::arithmetic::div_mod::lemma_div_multiples_vanish;

verus! {

/// The greatest common divisor, by Euclid's recursion.
pub open spec fn gcd(a: nat, b: nat) -> nat
    decreases b,
{
    if b == 0 {
        a
    } else {
        gcd(b, a % b)
    }
}

/// `d` divides `a`.
pub open spec fn divides(d: nat, a: nat) -> bool {
    exists|k: nat| a == #[trigger] (d * k)
}

/// `gcd(a, b)` is a common divisor of `a` and `b`, and is positive
/// unless both arguments are zero.
pub proof fn lemma_gcd_divides(a: nat, b: nat)
    ensures
        divides(gcd(a, b), a),
        divides(gcd(a, b), b),
        a > 0 || b > 0 ==> gcd(a, b) >= 1,
    decreases b,
{
    if b == 0 {
        assert(a == a * 1);
        assert(0 == a * 0);
        assert(divides(a, a));
        assert(divides(a, 0nat));
    } else {
        lemma_gcd_divides(b, a % b);
        let g = gcd(b, a % b);
        let kb = choose|k: nat| b == #[trigger] (g * k);
        let kr = choose|k: nat| (a % b) == #[trigger] (g * k);
        lemma_fundamental_div_mod(a as int, b as int);
        let q = a as int / b as int;
        assert(q >= 0) by {
            vstd::arithmetic::div_mod::lemma_div_pos_is_pos(a as int, b as int);
        }
        assert(a as int == b * q + (a % b));
        assert(a as int == (g * kb) * q + g * kr);
        assert((g * kb) * q + g * kr == g * (kb * q + kr)) by (nonlinear_arith);
        assert(kb * q + kr >= 0) by (nonlinear_arith)
            requires q >= 0, kb >= 0, kr >= 0;
        assert(a == g * ((kb * q + kr) as nat));
        assert(divides(g, a));
    }
}

/// Any common divisor of `a` and `b` divides `gcd(a, b)`.
pub proof fn lemma_gcd_greatest(a: nat, b: nat, d: nat)
    requires
        divides(d, a),
        divides(d, b),
    ensures
        divides(d, gcd(a, b)),
    decreases b,
{
    if b == 0 {
    } else {
        let ka = choose|k: nat| a == #[trigger] (d * k);
        let kb = choose|k: nat| b == #[trigger] (d * k);
        if d == 0 {
            assert(b == 0 * kb);
            assert(false);
        }
        lemma_fundamental_div_mod(a as int, b as int);
        let q = a as int / b as int;
        let m = ka - q * kb;
        assert(a as int == b * q + (a % b));
        assert(a as int == (d * kb) * q + (a % b));
        assert((a % b) as int == d * ka - (d * kb) * q);
        assert(d * ka - (d * kb) * q == d * m) by (nonlinear_arith)
            requires m == ka - q * kb;
        assert((a % b) as int == d * m);
        assert(m >= 0) by (nonlinear_arith)
            requires d > 0, d * m >= 0;
        assert((a % b) == d * (m as nat));
        assert(divides(d, (a % b) as nat));
        lemma_gcd_greatest(b, (a % b) as nat, d);
    }
}

/// If `d` divides `a` and both are positive, `d` is at most `a`,
/// and `a == d * (a / d)`.
pub proof fn lemma_divides_le(d: nat, a: nat)
    requires
        divides(d, a),
        d > 0,
        a > 0,
    ensures
        d <= a,
        a == d * (a / d),
        a / d >= 1,
{
    let k = choose|k: nat| a == #[trigger] (d * k);
    assert(k >= 1) by (nonlinear_arith)
        requires a == d * k, a > 0;
    assert(d * 1 <= d * k) by (nonlinear_arith)
        requires k >= 1, d > 0;
    lemma_div_multiples_vanish(k as int, d as int);
    assert(a / d == k) by {
        assert((d * k) / d == k);
    }
}

/// Dividing both parts by their gcd leaves a coprime pair that still
/// multiplies back to the originals.
pub proof fn lemma_reduce_coprime(a: nat, b: nat)
    requires
        a > 0 || b > 0,
    ensures
        gcd(a, b) >= 1,
        a == gcd(a, b) * (a / gcd(a, b)),
        b == gcd(a, b) * (b / gcd(a, b)),
        gcd(a / gcd(a, b), b / gcd(a, b)) == 1,
        a > 0 ==> a / gcd(a, b) > 0,
        b > 0 ==> b / gcd(a, b) > 0,
{
    lemma_gcd_divides(a, b);
    let g = gcd(a, b);
    if a > 0 {
        lemma_divides_le(g, a);
    } else {
        let k = choose|k: nat| a == #[trigger] (g * k);
        assert(g * k == 0 && g > 0 ==> k == 0) by (nonlinear_arith);
        assert(a / g == 0) by {
            vstd::arithmetic::div_mod::lemma_basic_div(a as int, g as int);
        }
        assert(g * (a / g) == 0) by (nonlinear_arith)
            requires a / g == 0;
    }
    if b > 0 {
        lemma_divides_le(g, b);
    } else {
        assert(b / g == 0) by {
            vstd::arithmetic::div_mod::lemma_basic_div(b as int, g as int);
        }
        assert(g * (b / g) == 0) by (nonlinear_arith)
            requires b / g == 0;
    }
    let ra = a / g;
    let rb = b / g;
    let h = gcd(ra, rb);
    assert(ra > 0 || rb > 0) by {
        if a > 0 {
            assert(g * ra == a);
            assert(ra == 0 ==> g * ra == 0) by (nonlinear_arith);
        } else {
            assert(g * rb == b);
            assert(rb == 0 ==> g * rb == 0) by (nonlinear_arith);
        }
    }
    lemma_gcd_divides(ra, rb);
    let ma = choose|k: nat| ra == #[trigger] (h * k);
    let mb = choose|k: nat| rb == #[trigger] (h * k);
    assert(a == (g * h) * ma) by (nonlinear_arith)
        requires a == g * ra, ra == h * ma;
    assert(b == (g * h) * mb) by (nonlinear_arith)
        requires b == g * rb, rb == h * mb;
    assert(divides((g * h) as nat, a));
    assert(divides((g * h) as nat, b));
    lemma_gcd_greatest(a, b, (g * h) as nat);
    assert(h >= 1);
    if h > 1 {
        assert(g * h > g * 1) by (nonlinear_arith)
            requires g >= 1, h > 1;
        lemma_divides_le((g * h) as nat, g);
        assert(false);
    }
}

/// An exact rational fraction: `num / den`, kept in lowest terms with a
/// positive denominator.
#[derive(Debug, Copy, Clone, PartialEq, Eq, Structural)]
pub struct Fraction {
    pub num: u32,
    pub den: u32,
}

impl Fraction {
    /// In lowest terms, with a positive denominator.
    pub open spec fn wf(self) -> bool {
        self.den >= 1 && gcd(self.num as nat, self.den as nat) == 1
    }

    /// Two fractions denote the same rational number (cross-multiplication).
    pub open spec fn same_value(self, other: Fraction) -> bool {
        self.num * other.den == other.num * self.den
    }

    /// The reduced pair for the rational `n / d`.
    pub open spec fn spec_reduce(n: int, d: int) -> (int, int) {
        let g = gcd(n as nat, d as nat) as int;
        (n / g, d / g)
    }

    /// What `checked_add` returns: the reduced exact sum if it fits the
    /// field width, `None` otherwise.
    pub open spec fn spec_add(a: Fraction, b: Fraction) -> Option<Fraction> {
        let n = a.num * b.den + b.num * a.den;
        let d = a.den * b.den;
        let (rn, rd) = Fraction::spec_reduce(n, d);
        if rn <= u32::MAX && rd <= u32::MAX {
            Some(Fraction { num: rn as u32, den: rd as u32 })
        } else {
            None
        }
    }

    /// The reduced fraction for `num / den`, as a spec-level value.
    pub open spec fn spec_new(num: u32, den: u32) -> Fraction {
        let g = gcd(num as nat, den as nat) as int;
        Fraction { num: (num as int / g) as u32, den: (den as int / g) as u32 }
    }

    /// Build the reduced fraction `num / den`.
    pub fn new(num: u32, den: u32) -> (r: Fraction)
        requires
            den >= 1,
        ensures
            r == Fraction::spec_new(num, den),
            r.wf(),
            r.num == Fraction::spec_reduce(num as int, den as int).0,
            r.den == Fraction::spec_reduce(num as int, den as int).1,
            r.same_value(Fraction { num, den }),
    {
        proof {
            lemma_reduce_coprime(num as nat, den as nat);
        }
        let g = gcd_exec(num as u128, den as u128);
        let rn = (num as u128 / g) as u32;
        let rd = (den as u128 / g) as u32;
        let r = Fraction { num: rn, den: rd };
        proof {
            let gn = gcd(num as nat, den as nat);
            assert(rn as int == num as int / gn as int);
            assert(rd as int == den as int / gn as int);
            lemma_value_after_reduce(num as nat, den as nat);
        }
        r
    }

    /// The exact sum of two fractions, reduced; `None` when the reduced
    /// numerator or denominator does not fit in `u32`.
    pub fn checked_add(self, other: Fraction) -> (r: Option<Fraction>)
        requires
            self.wf(),
            other.wf(),
        ensures
            r == Fraction::spec_add(self, other),
            r is Some ==> r->Some_0.wf(),
            r is Some ==> r->Some_0.num * (self.den * other.den)
                == (self.num * other.den + other.num * self.den) * r->Some_0.den,
    {
        proof {
            lemma_u32_products_fit(self.num as int, other.den as int, other.num as int, self.den as int);
            lemma_u32_products_fit(self.den as int, other.den as int, 0, 0);
        }
        let p1: u64 = self.num as u64 * other.den as u64;
        let p2: u64 = other.num as u64 * self.den as u64;
        let n: u128 = p1 as u128 + p2 as u128;
        let d: u64 = self.den as u64 * other.den as u64;
        proof {
            assert(d >= 1) by (nonlinear_arith)
                requires self.den >= 1, other.den >= 1, d == self.den as int * other.den as int;
            lemma_reduce_coprime(n as nat, d as nat);
        }
        let g = gcd_exec(n, d as u128);
        let rn = n / g;
        let rd = d as u128 / g;
        if rn <= u32::MAX as u128 && rd <= u32::MAX as u128 {
            let r = Fraction { num: rn as u32, den: rd as u32 };
            proof {
                lemma_value_after_reduce(n as nat, d as nat);
            }
            Some(r)
        } else {
            None
        }
    }

    /// Whether two fractions denote the same rational number.
    pub fn eq_value(self, other: Fraction) -> (r: bool)
        ensures
            r == self.same_value(other),
    {
        proof {
            assert(self.num as int * other.den as int <= 0xffff_ffff * 0xffff_ffff)
                by (nonlinear_arith)
                requires self.num <= 0xffff_ffffu32, other.den <= 0xffff_ffffu32;
            assert(other.num as int * self.den as int <= 0xffff_ffff * 0xffff_ffff)
                by (nonlinear_arith)
                requires other.num <= 0xffff_ffffu32, self.den <= 0xffff_ffffu32;
        }
        self.num as u64 * other.den as u64 == other.num as u64 * self.den as u64
    }
}

/// `spec_new` yields a well-formed fraction with the value `num / den`.
pub proof fn lemma_spec_new(num: u32, den: u32)
    requires
        den >= 1,
    ensures
        Fraction::spec_new(num, den).wf(),
        Fraction::spec_new(num, den).same_value(Fraction { num, den }),
{
    lemma_reduce_coprime(num as nat, den as nat);
    lemma_value_after_reduce(num as nat, den as nat);
    let g = gcd(num as nat, den as nat);
    assert(num as int / g as int <= num) by {
        assert(num as nat == g * (num as nat / g));
        assert(g * (num as nat / g) >= 1 * (num as nat / g)) by (nonlinear_arith)
            requires g >= 1;
    }
    assert(den as int / g as int <= den) by {
        assert(den as nat == g * (den as nat / g));
        assert(g * (den as nat / g) >= 1 * (den as nat / g)) by (nonlinear_arith)
            requires g >= 1;
    }
}

/// When `spec_add` succeeds, its result is in lowest terms and denotes
/// exactly the sum of the two rationals.
pub proof fn lemma_spec_add_value(a: Fraction, b: Fraction)
    requires
        a.wf(),
        b.wf(),
        Fraction::spec_add(a, b) is Some,
    ensures
        Fraction::spec_add(a, b)->Some_0.wf(),
        Fraction::spec_add(a, b)->Some_0.num * (a.den * b.den) == (a.num * b.den + b.num * a.den)
            * Fraction::spec_add(a, b)->Some_0.den,
{
    let n = (a.num * b.den + b.num * a.den) as nat;
    let d = (a.den * b.den) as nat;
    assert(d >= 1) by (nonlinear_arith)
        requires a.den >= 1, b.den >= 1, d == a.den * b.den;
    lemma_reduce_coprime(n, d);
    lemma_value_after_reduce(n, d);
    let g = gcd(n, d);
    assert(n as int / g as int <= n) by {
        assert(n == g * (n / g));
        assert(g * (n / g) >= 1 * (n / g)) by (nonlinear_arith)
            requires g >= 1;
    }
}

/// The product of two `u32`-sized values fits in a `u64`.
pub proof fn lemma_u32_mul_fits(a: int, b: int)
    requires
        0 <= a <= u32::MAX,
        0 <= b <= u32::MAX,
    ensures
        0 <= a * b <= u64::MAX,
{
    assert(a * b <= u32::MAX * u32::MAX && a * b >= 0) by (nonlinear_arith)
        requires 0 <= a <= u32::MAX, 0 <= b <= u32::MAX;
}

/// Products of `u32`-sized values fit in a `u64`.
proof fn lemma_u32_products_fit(a: int, b: int, c: int, d: int)
    requires
        0 <= a <= u32::MAX,
        0 <= b <= u32::MAX,
        0 <= c <= u32::MAX,
        0 <= d <= u32::MAX,
    ensures
        0 <= a * b <= u64::MAX,
        0 <= c * d <= u64::MAX,
{
    assert(a * b <= u32::MAX * u32::MAX && a * b >= 0) by (nonlinear_arith)
        requires 0 <= a <= u32::MAX, 0 <= b <= u32::MAX;
    assert(c * d <= u32::MAX * u32::MAX && c * d >= 0) by (nonlinear_arith)
        requires 0 <= c <= u32::MAX, 0 <= d <= u32::MAX;
}

/// The reduced pair denotes the same rational as the pair it came from:
/// `(n/g) * d == n * (d/g)`.
proof fn lemma_value_after_reduce(n: nat, d: nat)
    requires
        d >= 1,
    ensures
        (n / gcd(n, d)) * d == n * (d / gcd(n, d)),
{
    lemma_reduce_coprime(n, d);
    let g = gcd(n, d);
    let rn = n / g;
    let rd = d / g;
    assert(rn * d == rn * (g * rd)) by (nonlinear_arith)
        requires d == g * rd;
    assert(rn * (g * rd) == (g * rn) * rd) by (nonlinear_arith);
    assert((g * rn) * rd == n * rd) by (nonlinear_arith)
        requires n == g * rn;
}

/// Euclid's algorithm.
pub fn gcd_exec(a: u128, b: u128) -> (r: u128)
    requires
        a > 0 || b > 0,
    ensures
        r == gcd(a as nat, b as nat),
        r >= 1,
    decreases b,
{
    proof {
        lemma_gcd_divides(a as nat, b as nat);
    }
    if b == 0 {
        a
    } else {
        gcd_exec(b, a % b)
    }
}

} // verus!
