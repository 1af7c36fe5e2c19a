//! The duration engine: exact rational fractions of a tempo-derived
//! whole-note length.

use vstd::prelude::*;
use vstd::arithmetic::power2::pow2;
use vstd::arithmetic::power2::lemma_pow2_adds;
use vstd::arithmetic::power2::lemma_pow2_pos;
use vstd::arithmetic::power2::lemma_pow2_strictly_increases;
use vstd::arithmetic::power2::lemma2_to64;
use crate::frac::Fraction;
use crate::frac::gcd;
use crate::frac::divides;
use crate::frac::lemma_gcd_divides;
use crate::frac::lemma_divides_le;
use crate::parse::error::ParserError;

verus! {

/// `n` is a power of two.
pub open spec fn is_pow2(n: int) -> bool {
    exists|j: nat| n == #[trigger] pow2(j)
}

/// An odd number dividing a power of two is 1.
proof fn lemma_odd_divides_pow2(d: nat, k: nat)
    requires
        d % 2 == 1,
        divides(d, pow2(k)),
    ensures
        d == 1,
    decreases k,
{
    lemma_pow2_pos(k);
    if k == 0 {
        assert(pow2(0) == 1) by {
            lemma2_to64();
        }
        lemma_divides_le(d, 1);
    } else {
        let t = choose|t: nat| pow2(k) == #[trigger] (d * t);
        assert(pow2(k) == 2 * pow2((k - 1) as nat)) by {
            lemma_pow2_adds(1, (k - 1) as nat);
            lemma2_to64();
        }
        let t2 = t / 2;
        let d2 = d / 2;
        if t % 2 == 1 {
            assert(d * t == 2 * (2 * (d2 * t2) + d2 + t2) + 1) by (nonlinear_arith)
                requires d == 2 * d2 + 1, t == 2 * t2 + 1;
            assert(false);
        }
        assert(d * t == 2 * (d * t2)) by (nonlinear_arith)
            requires t == 2 * t2;
        assert(pow2((k - 1) as nat) == d * t2);
        assert(divides(d, pow2((k - 1) as nat)));
        lemma_odd_divides_pow2(d, (k - 1) as nat);
    }
}

/// An odd number is coprime to every power of two.
proof fn lemma_coprime_odd_pow2(n: nat, k: nat)
    requires
        n % 2 == 1,
    ensures
        gcd(n, pow2(k)) == 1,
{
    lemma_pow2_pos(k);
    lemma_gcd_divides(n, pow2(k));
    let g = gcd(n, pow2(k));
    let kn = choose|t: nat| n == #[trigger] (g * t);
    if g % 2 == 0 {
        let g2 = g / 2;
        assert(n == 2 * (g2 * kn)) by (nonlinear_arith)
            requires g == 2 * g2, n == g * kn;
        assert(false);
    }
    lemma_odd_divides_pow2(g, k);
}

/// `pow2(e)` as an executable value.
pub fn pow2_u32(e: u32) -> (r: u32)
    requires
        pow2(e as nat) <= u32::MAX,
    ensures
        r == pow2(e as nat),
{
    proof {
        lemma2_to64();
    }
    let mut r: u32 = 1;
    let mut i: u32 = 0;
    while i < e
        invariant
            i <= e,
            r == pow2(i as nat),
            pow2(e as nat) <= u32::MAX,
        decreases e - i,
    {
        proof {
            lemma_pow2_adds(i as nat, 1);
            lemma2_to64();
            if i + 1 < e {
                lemma_pow2_strictly_increases((i + 1) as nat, e as nat);
            }
        }
        r = r * 2;
        i = i + 1;
    }
    r
}

/// The exponent of `n`, if `n` is a power of two; `None` otherwise.
pub fn exponent_of(n: u32) -> (r: Option<u32>)
    ensures
        match r {
            Some(e) => n == pow2(e as nat) && e <= 31,
            None => !is_pow2(n as int),
        },
{
    if n == 0 {
        proof {
            assert forall|j: nat| 0int != #[trigger] pow2(j) by {
                lemma_pow2_pos(j);
            }
        }
        return None;
    }
    proof {
        lemma2_to64();
    }
    let mut m: u32 = n;
    let mut e: u32 = 0;
    while m % 2 == 0
        invariant
            1 <= m <= n,
            n == m * pow2(e as nat),
            e <= 31,
        decreases m,
    {
        proof {
            let m2 = m / 2;
            assert(m * pow2(e as nat) == m2 * (2 * pow2(e as nat))) by (nonlinear_arith)
                requires m % 2 == 0, m2 == m / 2;
            lemma_pow2_adds(e as nat, 1);
            lemma2_to64();
            assert(pow2((e + 1) as nat) <= m2 * pow2((e + 1) as nat)) by (nonlinear_arith)
                requires m2 >= 1;
            if e + 1 > 31 {
                lemma_pow2_strictly_increases(31, (e + 1) as nat);
                assert(false);
            }
        }
        m = m / 2;
        e = e + 1;
    }
    if m == 1 {
        Some(e)
    } else {
        proof {
            assert forall|j: nat| n as int != #[trigger] pow2(j) by {
                if n == pow2(j) {
                    assert(divides(m as nat, pow2(j))) by {
                        assert(pow2(j) == m as nat * pow2(e as nat));
                    }
                    lemma_odd_divides_pow2(m as nat, j);
                }
            }
        }
        None
    }
}

/// A wall-clock length in seconds, as an exact rational, paired with an
/// exact rational fraction of it: the fraction of a whole note that this
/// duration lasts.
#[derive(Debug, Copy, Clone, PartialEq, Eq, Structural)]
pub struct Duration {
    /// The whole-note reference length, in seconds.
    pub whole_note: Fraction,
    /// The fraction of the whole note that this duration lasts.
    pub fraction: Fraction,
}

impl Duration {
    /// Both parts in lowest terms.
    pub open spec fn wf(self) -> bool {
        self.whole_note.wf() && self.fraction.wf()
    }

    /// This duration's wall-clock length in seconds, as an exact (not
    /// necessarily reduced) numerator/denominator pair: the whole-note
    /// length times the fraction.  The floating-point conversion, if one
    /// is wanted, belongs to the consumer.
    pub fn secs_ratio(&self) -> (r: (u64, u64))
        ensures
            r.0 == self.whole_note.num * self.fraction.num,
            r.1 == self.whole_note.den * self.fraction.den,
    {
        proof {
            crate::frac::lemma_u32_mul_fits(self.whole_note.num as int, self.fraction.num as int);
            crate::frac::lemma_u32_mul_fits(self.whole_note.den as int, self.fraction.den as int);
        }
        (
            self.whole_note.num as u64 * self.fraction.num as u64,
            self.whole_note.den as u64 * self.fraction.den as u64,
        )
    }
}

/// Builds `Duration`s against a fixed whole-note wall-clock length.
#[derive(Debug, Copy, Clone, PartialEq, Eq, Structural)]
pub struct DurationBuilder {
    /// The whole-note reference length, in seconds.
    pub whole_note: Fraction,
}

impl DurationBuilder {
    /// What `build` returns: the dotted-note geometric series
    /// `1/nth + 1/(2 nth) + ... ` (`dots + 1` terms), which sums to
    /// `(2^(dots+1) - 1) / (nth * 2^dots)`, over this builder's
    /// whole-note length.
    pub open spec fn spec_build(self, nth: u32, dots: u32) -> Duration {
        Duration {
            whole_note: self.whole_note,
            fraction: Fraction {
                num: (pow2((dots + 1) as nat) - 1) as u32,
                den: (nth * pow2(dots as nat)) as u32,
            },
        }
    }

    /// A builder whose whole note lasts `whole_note` seconds.
    pub fn new(whole_note: Fraction) -> (r: DurationBuilder)
        ensures
            r.whole_note == whole_note,
    {
        DurationBuilder { whole_note }
    }

    /// A builder for a tempo of `bpm` beats per minute: four beats per
    /// whole note, so the whole note lasts `240 / bpm` seconds.
    pub fn from_bpm(bpm: u32) -> (r: DurationBuilder)
        requires
            bpm >= 1,
        ensures
            r.whole_note == Fraction::spec_new(240, bpm),
            r.whole_note.wf(),
            r.whole_note.same_value(Fraction { num: 240, den: bpm }),
    {
        DurationBuilder { whole_note: Fraction::new(240, bpm) }
    }

    /// The duration of a `1/nth` note with `dots` dots: the geometric sum
    /// of `dots + 1` halving terms starting at `1/nth`, an exact rational
    /// in lowest terms.
    pub fn build(&self, nth: u32, dots: u32) -> (r: Duration)
        requires
            is_pow2(nth as int),
            dots <= 30,
            nth * pow2(dots as nat) <= u32::MAX,
        ensures
            r == self.spec_build(nth, dots),
            r.fraction.wf(),
            self.whole_note.wf() ==> r.wf(),
    {
        let ghost j = choose|j: nat| nth as int == pow2(j);
        proof {
            lemma_pow2_pos(dots as nat);
            lemma_pow2_pos(j);
            assert(pow2(dots as nat) <= nth * pow2(dots as nat)) by (nonlinear_arith)
                requires nth >= 1;
            if dots + 1 > 31 {
                assert(false);
            }
            assert(pow2((dots + 1) as nat) <= 0x8000_0000) by {
                lemma2_to64();
                if dots + 1 < 31 {
                    lemma_pow2_strictly_increases((dots + 1) as nat, 31);
                }
            }
        }
        proof {
            lemma_pow2_pos((dots + 1) as nat);
        }
        let p = pow2_u32(dots);
        let den = nth * p;
        let num = pow2_u32(dots + 1) - 1;
        proof {
            lemma_pow2_adds(1, dots as nat);
            lemma2_to64();
            assert(num == 2 * (pow2(dots as nat) - 1) + 1);
            assert(num % 2 == 1);
            assert(den as nat == pow2(j + dots as nat)) by {
                lemma_pow2_adds(j, dots as nat);
            }
            lemma_coprime_odd_pow2(num as nat, j + dots as nat);
        }
        Duration { whole_note: self.whole_note, fraction: Fraction { num, den } }
    }
}

impl From<Duration> for DurationBuilder {
    /// A builder that shares the duration's whole-note basis.
    fn from(d: Duration) -> (r: DurationBuilder) {
        DurationBuilder { whole_note: d.whole_note }
    }
}

impl vstd::std_specs::convert::FromSpecImpl<Duration> for DurationBuilder {
    open spec fn obeys_from_spec() -> bool {
        true
    }

    open spec fn from_spec(d: Duration) -> DurationBuilder {
        DurationBuilder { whole_note: d.whole_note }
    }
}

/// What `sum_durations` returns: the exact running sum of the fractions,
/// left to right, under a shared whole-note basis.  An empty sequence has
/// no basis; differing bases are a `MismatchedDurationBasis`; a reduced
/// partial sum that does not fit the fraction's field width is a
/// `DurationOverflow`.
pub open spec fn spec_sum_durations(s: Seq<Duration>) -> Result<Duration, ParserError>
    decreases s.len(),
{
    if s.len() == 0 {
        Err(ParserError::MismatchedDurationBasis)
    } else if s.len() == 1 {
        Ok(s[0])
    } else {
        match spec_sum_durations(s.drop_last()) {
            Err(e) => Err(e),
            Ok(acc) => {
                if acc.whole_note != s.last().whole_note {
                    Err(ParserError::MismatchedDurationBasis)
                } else {
                    match Fraction::spec_add(acc.fraction, s.last().fraction) {
                        Some(f) => Ok(Duration { whole_note: acc.whole_note, fraction: f }),
                        None => Err(ParserError::DurationOverflow),
                    }
                }
            },
        }
    }
}

/// For any tempo `bpm > 0`, an un-dotted quarter note lasts exactly
/// `240 / bpm / 4` seconds: its fraction is exactly `1/4`, over a
/// whole note of exactly `240 / bpm` seconds.
pub proof fn lemma_quarter_note_seconds(bpm: u32)
    requires
        bpm >= 1,
    ensures
        ({
            let d = (DurationBuilder { whole_note: Fraction::spec_new(240, bpm) }).spec_build(4, 0);
            d.fraction == (Fraction { num: 1, den: 4 }) && d.whole_note.wf() && (d.whole_note.num
                * d.fraction.num) * (4 * bpm) == 240 * (d.whole_note.den * d.fraction.den)
        }),
{
    lemma2_to64();
    crate::frac::lemma_spec_new(240, bpm);
    let wn = Fraction::spec_new(240, bpm);
    assert(wn.num * bpm == 240 * wn.den);
    assert((wn.num * 1) * (4 * bpm) == 240 * (wn.den * 4)) by (nonlinear_arith)
        requires wn.num * bpm == 240 * wn.den;
}

/// Each additional dot extends the duration by exactly half of the
/// previously added term: `build(nth, dots + 1)` exceeds
/// `build(nth, dots)` by exactly `1 / (nth * 2^(dots+1))`, whose
/// denominator is twice the previous fraction's.  This is the geometric
/// dotted-note series.
pub proof fn lemma_build_is_geometric(b: DurationBuilder, nth: u32, dots: u32)
    requires
        nth >= 1,
        dots <= 29,
        nth * pow2((dots + 1) as nat) <= u32::MAX,
    ensures
        ({
            let f0 = b.spec_build(nth, dots).fraction;
            let f1 = b.spec_build(nth, (dots + 1) as u32).fraction;
            f1.den == 2 * f0.den && f1.num * f0.den == f0.num * f1.den + f0.den
        }),
{
    let p = pow2(dots as nat);
    lemma_pow2_pos(dots as nat);
    assert(pow2((dots + 1) as nat) == 2 * p) by {
        lemma_pow2_adds(1, dots as nat);
        lemma2_to64();
    }
    assert(pow2((dots + 2) as nat) == 4 * p) by {
        lemma_pow2_adds(2, dots as nat);
        lemma2_to64();
    }
    assert(pow2((dots + 2) as nat) <= 2 * (nth * (2 * p))) by (nonlinear_arith)
        requires nth >= 1, pow2((dots + 2) as nat) == 4 * p, p >= 1;
    assert(pow2((dots + 2) as nat) - 1 <= u32::MAX) by {
        lemma2_to64();
        vstd::arithmetic::power2::lemma_pow2_strictly_increases((dots + 2) as nat, 32);
    }
    assert(nth * p <= nth * (2 * p)) by (nonlinear_arith)
        requires nth >= 1, p >= 1;
    assert(2 * p <= nth * (2 * p)) by (nonlinear_arith)
        requires nth >= 1, p >= 1;
    let n = nth as int;
    let f0 = b.spec_build(nth, dots).fraction;
    let f1 = b.spec_build(nth, (dots + 1) as u32).fraction;
    assert(f0.num == 2 * p - 1);
    assert(f0.den == n * p);
    assert(f1.num == 4 * p - 1);
    assert(f1.den == n * (2 * p));
    assert(n * (2 * p) == 2 * (n * p)) by (nonlinear_arith);
    assert((4 * p - 1) * (n * p) == (2 * p - 1) * (n * (2 * p)) + n * p) by (nonlinear_arith);
}

/// The exact unreduced rational sum of the fractions of a sequence of
/// durations.
pub open spec fn raw_fraction_sum(s: Seq<Duration>) -> (int, int)
    decreases s.len(),
{
    if s.len() == 0 {
        (0, 1)
    } else if s.len() == 1 {
        (s[0].fraction.num as int, s[0].fraction.den as int)
    } else {
        let p = raw_fraction_sum(s.drop_last());
        (
            p.0 * s.last().fraction.den + s.last().fraction.num * p.1,
            p.1 * s.last().fraction.den,
        )
    }
}

/// Summing durations is numerically exact and keeps the fraction in
/// lowest terms: after any chain of additions, the result's reduced
/// fraction denotes precisely the rational sum of the parts, with no
/// drift.
#[verifier::rlimit(60)]
pub proof fn lemma_sum_exact_lowest_terms(s: Seq<Duration>)
    requires
        s.len() >= 1,
        forall|i: int| 0 <= i < s.len() ==> (#[trigger] s[i]).fraction.wf(),
        spec_sum_durations(s) is Ok,
    ensures
        ({
            let t = spec_sum_durations(s)->Ok_0;
            let raw = raw_fraction_sum(s);
            t.fraction.wf() && raw.1 >= 1 && t.fraction.num * raw.1 == raw.0 * t.fraction.den
        }),
    decreases s.len(),
{
    if s.len() == 1 {
    } else {
        lemma_sum_exact_lowest_terms(s.drop_last());
        let acc = spec_sum_durations(s.drop_last())->Ok_0;
        let last = s.last();
        let f = Fraction::spec_add(acc.fraction, last.fraction)->Some_0;
        crate::frac::lemma_spec_add_value(acc.fraction, last.fraction);
        let p0 = raw_fraction_sum(s.drop_last()).0;
        let p1 = raw_fraction_sum(s.drop_last()).1;
        let an = acc.fraction.num as int;
        let ad = acc.fraction.den as int;
        let ln = last.fraction.num as int;
        let ld = last.fraction.den as int;
        let fnum = f.num as int;
        let fden = f.den as int;
        assert(fnum * (ad * ld) == (an * ld + ln * ad) * fden);
        assert(an * p1 == p0 * ad);
        assert((fnum * (p1 * ld)) * ad == (fnum * (ad * ld)) * p1) by (nonlinear_arith);
        let u = an * ld + ln * ad;
        let v = p0 * ld + ln * p1;
        assert(u * p1 == (an * p1) * ld + (ln * p1) * ad) by (nonlinear_arith)
            requires u == an * ld + ln * ad;
        assert((an * p1) * ld == (p0 * ad) * ld) by (nonlinear_arith)
            requires an * p1 == p0 * ad;
        assert((p0 * ad) * ld + (ln * p1) * ad == v * ad) by (nonlinear_arith)
            requires v == p0 * ld + ln * p1;
        assert((u * fden) * p1 == (u * p1) * fden) by (nonlinear_arith);
        assert((u * p1) * fden == (v * ad) * fden) by (nonlinear_arith)
            requires u * p1 == v * ad;
        assert((v * ad) * fden == (v * fden) * ad) by (nonlinear_arith);
        assert(((an * ld + ln * ad) * fden) * p1 == ((p0 * ld + ln * p1) * fden) * ad);
        assert((fnum * (p1 * ld)) * ad == ((p0 * ld + ln * p1) * fden) * ad) by (nonlinear_arith)
            requires
                (fnum * (p1 * ld)) * ad == (fnum * (ad * ld)) * p1,
                fnum * (ad * ld) == (an * ld + ln * ad) * fden,
                ((an * ld + ln * ad) * fden) * p1 == ((p0 * ld + ln * p1) * fden) * ad;
        assert(fnum * (p1 * ld) == (p0 * ld + ln * p1) * fden) by (nonlinear_arith)
            requires
                (fnum * (p1 * ld)) * ad == ((p0 * ld + ln * p1) * fden) * ad,
                ad >= 1,
        ;
        assert(p1 * ld >= 1) by (nonlinear_arith)
            requires p1 >= 1, ld >= 1;
    }
}

/// An error of a prefix sum persists in the whole sum.
proof fn lemma_sum_err_persists(s: Seq<Duration>, i: int)
    requires
        1 <= i <= s.len(),
        spec_sum_durations(s.take(i)) is Err,
    ensures
        spec_sum_durations(s) == spec_sum_durations(s.take(i)),
    decreases s.len(),
{
    if i == s.len() {
        assert(s.take(i) =~= s);
    } else {
        assert(s.drop_last().take(i) =~= s.take(i));
        lemma_sum_err_persists(s.drop_last(), i);
    }
}

/// Sum a non-empty sequence of durations exactly.  Every element must
/// share the same whole-note basis; the fractions are summed as exact
/// rationals, kept in lowest terms throughout.
pub fn sum_durations(ds: &Vec<Duration>) -> (r: Result<Duration, ParserError>)
    requires
        ds@.len() >= 1,
        forall|i: int| 0 <= i < ds@.len() ==> (#[trigger] ds@[i]).wf(),
    ensures
        r == spec_sum_durations(ds@),
        r is Ok ==> r->Ok_0.wf() && r->Ok_0.whole_note == ds@[0].whole_note,
{
    let mut acc = ds[0];
    let mut i: usize = 1;
    proof {
        assert(ds@.take(1) =~= seq![ds@[0]]);
    }
    while i < ds.len()
        invariant
            1 <= i <= ds@.len(),
            forall|k: int| 0 <= k < ds@.len() ==> (#[trigger] ds@[k]).wf(),
            spec_sum_durations(ds@.take(i as int)) == Ok::<Duration, ParserError>(acc),
            acc.wf(),
            acc.whole_note == ds@[0].whole_note,
        decreases ds@.len() - i,
    {
        let d = ds[i];
        proof {
            assert(ds@.take(i + 1).drop_last() =~= ds@.take(i as int));
            assert(ds@.take(i + 1).last() == ds@[i as int]);
        }
        if !(acc.whole_note == d.whole_note) {
            proof {
                lemma_sum_err_persists(ds@, i + 1);
            }
            return Err(ParserError::MismatchedDurationBasis);
        }
        match acc.fraction.checked_add(d.fraction) {
            Some(f) => {
                acc = Duration { whole_note: acc.whole_note, fraction: f };
            },
            None => {
                proof {
                    lemma_sum_err_persists(ds@, i + 1);
                }
                return Err(ParserError::DurationOverflow);
            },
        }
        i = i + 1;
    }
    proof {
        assert(ds@.take(ds@.len() as int) =~= ds@);
    }
    Ok(acc)
}

} // verus!
