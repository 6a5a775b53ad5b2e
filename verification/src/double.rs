//! Double-precision numbers, held as their IEEE 754 bit patterns.
//!
//! The library stores, compares and negates numbers; it does no rounding
//! arithmetic. All of that is decided exactly on the bit pattern: a sign bit,
//! eleven exponent bits and fifty-two fraction bits.

use vstd::arithmetic::power2::{
    lemma_pow2_pos, lemma_pow2_strictly_increases, lemma_pow2_unfold, pow2,
};
use vstd::prelude::*;

verus! {

/// A double-precision number, as its bit pattern.
#[derive(Debug, Clone, Copy, PartialEq, Eq, Structural)]
pub struct Double {
    pub bits: u64,
}

/// The sign bit.
pub const SIGN: u64 = 0x8000_0000_0000_0000;

/// The magnitude bits of an infinity; what lies above them is not a number.
pub const INFINITE: u64 = 0x7ff0_0000_0000_0000;

/// The weight of the lowest exponent bit.
pub const FRACTION: u64 = 0x0010_0000_0000_0000;

/// The bit pattern of 1.0.
pub const ONE: u64 = 0x3ff0_0000_0000_0000;

/// The number that the magnitude bits `m` stand for, in units of the smallest
/// positive double (2 to the power -1074). An infinity counts as the power of
/// two after the largest finite double.
#[verifier::opaque]
pub open spec fn magnitude_units(m: int) -> int {
    let e = m / (FRACTION as int);
    let f = m % (FRACTION as int);
    if e == 0 {
        f
    } else {
        (FRACTION + f) * pow2((e - 1) as nat)
    }
}

impl Double {
    /// The sign bit is set.
    pub open spec fn sign(self) -> bool {
        self.bits >= SIGN
    }

    /// The bits below the sign bit.
    pub open spec fn magnitude(self) -> int {
        if self.sign() {
            self.bits - SIGN
        } else {
            self.bits as int
        }
    }

    /// Not a number.
    pub open spec fn nan(self) -> bool {
        self.magnitude() > INFINITE
    }

    /// Neither infinite nor not-a-number.
    pub open spec fn finite(self) -> bool {
        self.magnitude() < INFINITE
    }

    /// The number, in units of the smallest positive double.
    pub open spec fn units(self) -> int {
        if self.sign() {
            -magnitude_units(self.magnitude())
        } else {
            magnitude_units(self.magnitude())
        }
    }

    /// `self < other`: both are numbers and the first is the smaller one.
    pub open spec fn less(self, other: Double) -> bool {
        !self.nan() && !other.nan() && self.units() < other.units()
    }

    /// `self <= other`: both are numbers and the first is not the larger one.
    pub open spec fn at_most(self, other: Double) -> bool {
        !self.nan() && !other.nan() && self.units() <= other.units()
    }

    /// Positive zero.
    pub open spec fn zero() -> Double {
        Double { bits: 0 }
    }

    /// One.
    pub open spec fn one() -> Double {
        Double { bits: ONE }
    }

    /// The number with its sign bit flipped.
    pub open spec fn negated(self) -> Double {
        if self.sign() {
            Double { bits: (self.bits - SIGN) as u64 }
        } else {
            Double { bits: (self.bits + SIGN) as u64 }
        }
    }

    /// The number with the bit pattern `bits`.
    pub fn from_bits(bits: u64) -> (r: Double)
        ensures
            r.bits == bits,
    {
        Double { bits }
    }

    /// The bit pattern.
    pub fn to_bits(self) -> (r: u64)
        ensures
            r == self.bits,
    {
        self.bits
    }

    fn magnitude_bits(self) -> (r: u64)
        ensures
            r == self.magnitude(),
            r < SIGN,
    {
        if self.bits >= SIGN {
            self.bits - SIGN
        } else {
            self.bits
        }
    }

    /// Whether the value is not a number.
    pub fn is_nan(self) -> (r: bool)
        ensures
            r == self.nan(),
    {
        self.magnitude_bits() > INFINITE
    }

    /// Whether the value is neither infinite nor not-a-number.
    pub fn is_finite(self) -> (r: bool)
        ensures
            r == self.finite(),
    {
        self.magnitude_bits() < INFINITE
    }

    /// The number with its sign flipped.
    pub fn neg(self) -> (r: Double)
        ensures
            r == self.negated(),
    {
        if self.bits >= SIGN {
            Double { bits: self.bits - SIGN }
        } else {
            Double { bits: self.bits + SIGN }
        }
    }

    /// Whether `self < other`.
    pub fn lt(self, other: Double) -> (r: bool)
        ensures
            r == self.less(other),
    {
        let a: u64 = self.magnitude_bits();
        let b: u64 = other.magnitude_bits();
        proof {
            lemma_magnitude_units_order(a as int, b as int);
            lemma_magnitude_units_order(0, a as int);
            lemma_magnitude_units_order(0, b as int);
        }
        if a > INFINITE || b > INFINITE {
            false
        } else if self.bits >= SIGN {
            if other.bits >= SIGN {
                b < a
            } else {
                a != 0 || b != 0
            }
        } else if other.bits >= SIGN {
            false
        } else {
            a < b
        }
    }

    /// Whether `self <= other`.
    pub fn le(self, other: Double) -> (r: bool)
        ensures
            r == self.at_most(other),
    {
        !self.is_nan() && !other.is_nan() && !other.lt(self)
    }
}

/// The magnitude bits order as the numbers they stand for.
pub proof fn lemma_magnitude_units_order(a: int, b: int)
    requires
        0 <= a,
        0 <= b,
    ensures
        a < b <==> magnitude_units(a) < magnitude_units(b),
        a == b <==> magnitude_units(a) == magnitude_units(b),
        magnitude_units(0) == 0,
{
    reveal(magnitude_units);
    if a < b {
        lemma_magnitude_units_increase(a, b);
    } else if b < a {
        lemma_magnitude_units_increase(b, a);
    }
}

proof fn lemma_magnitude_units_increase(a: int, b: int)
    requires
        0 <= a < b,
    ensures
        magnitude_units(a) < magnitude_units(b),
{
    reveal(magnitude_units);
    let w = FRACTION as int;
    let (ea, fa) = (a / w, a % w);
    let (eb, fb) = (b / w, b % w);
    assert(ea <= eb);
    if ea == eb {
        assert(fa < fb);
        if ea > 0 {
            let p = pow2((ea - 1) as nat) as int;
            lemma_pow2_pos((ea - 1) as nat);
            assert((w + fa) * p < (w + fb) * p) by (nonlinear_arith)
                requires
                    fa < fb,
                    p > 0,
            ;
        }
    } else {
        let q = pow2((eb - 1) as nat) as int;
        lemma_pow2_pos((eb - 1) as nat);
        assert((w + fb) * q >= w * q) by (nonlinear_arith)
            requires
                fb >= 0,
                q > 0,
        ;
        assert(w * q >= w) by (nonlinear_arith)
            requires
                q >= 1,
                w > 0,
        ;
        if ea > 0 {
            let p = pow2((ea - 1) as nat) as int;
            lemma_pow2_pos((ea - 1) as nat);
            lemma_pow2_unfold(ea as nat);
            if ea < eb - 1 {
                lemma_pow2_strictly_increases(ea as nat, (eb - 1) as nat);
            }
            assert(2 * p <= q);
            assert((w + fa) * p < w * q) by (nonlinear_arith)
                requires
                    fa < w,
                    p > 0,
                    2 * p <= q,
                    w > 0,
            ;
        }
    }
}

/// Flipping the sign twice gives the number back.
pub proof fn law_negation_is_its_own_inverse(d: Double)
    ensures
        d.negated().negated() == d,
        d.negated().units() == -d.units(),
        d.negated().nan() == d.nan(),
{
}

/// Among numbers `<` is a strict order, and `<=` is its weak form.
pub proof fn law_order(a: Double, b: Double, c: Double)
    ensures
        !a.less(a),
        a.less(b) && b.less(c) ==> a.less(c),
        a.at_most(b) <==> !a.nan() && !b.nan() && !b.less(a),
        a.nan() || b.nan() ==> !a.less(b) && !a.at_most(b),
{
}

/// What a bit pattern stands for: below the sign bit lie the finite numbers, then the
/// infinity, then what is not a number, and behind the sign bit the same once more.
pub proof fn law_patterns_divide(d: Double)
    ensures
        d.finite() <==> d.bits < 0x7ff0_0000_0000_0000 || 0x8000_0000_0000_0000 <= d.bits
            < 0xfff0_0000_0000_0000,
        d.nan() <==> 0x7ff0_0000_0000_0000 < d.bits < 0x8000_0000_0000_0000 || d.bits
            > 0xfff0_0000_0000_0000,
        d.sign() <==> d.bits >= 0x8000_0000_0000_0000,
        d.units() == 0 <==> d.bits == 0 || d.bits == 0x8000_0000_0000_0000,
        d.units() > 0 ==> !d.sign(),
        d.units() < 0 ==> d.sign(),
{
    lemma_magnitude_units_order(d.magnitude(), 0);
}

/// Above the smallest numbers, the next exponent stands for twice the number.
pub proof fn law_next_exponent_doubles(d: Double)
    requires
        0x0010_0000_0000_0000 <= d.bits < 0x7fe0_0000_0000_0000,
    ensures
        (Double { bits: (d.bits + 0x0010_0000_0000_0000) as u64 }).units() == 2 * d.units(),
{
    let w = FRACTION as int;
    let m = d.bits as int;
    let e = m / w;
    let f = m % w;
    reveal(magnitude_units);
    assert((m + w) / w == e + 1 && (m + w) % w == f);
    let p = pow2((e - 1) as nat) as int;
    lemma_pow2_unfold(e as nat);
    assert((w + f) * (2 * p) == 2 * ((w + f) * p)) by (nonlinear_arith);
}

/// Within an exponent, and from zero up to the second one, the next bit pattern stands
/// for a number that is larger by the same step.
pub proof fn law_fractions_step_evenly(d: Double)
    requires
        d.bits < 0x7ff0_0000_0000_0000,
    ensures
        ({
            let next = Double { bits: (d.bits + 1) as u64 };
            &&& d.bits < 0x0020_0000_0000_0000 ==> d.units() == d.bits
            &&& d.bits < 0x0020_0000_0000_0000 ==> next.units() == d.units() + 1
            &&& d.less(next)
        }),
{
    let w = FRACTION as int;
    let m = d.bits as int;
    reveal(magnitude_units);
    lemma_magnitude_units_order(m, m + 1);
    vstd::arithmetic::power2::lemma2_to64();
    let p = pow2(0) as int;
    let q = pow2(1) as int;
    assert(p == 1 && q == 2);
    assert(forall|f: int| #[trigger] ((w + f) * p) == w + f) by (nonlinear_arith)
        requires
            p == 1,
    ;
    assert((w + 0) * q == 2 * w) by (nonlinear_arith)
        requires
            q == 2,
    ;
    if m < 2 * w {
        assert(m / w == 0 || m / w == 1);
        assert(m / w == 1 ==> m % w == m - w);
        if m + 1 < 2 * w {
            assert((m + 1) / w == 0 || (m + 1) / w == 1);
            assert((m + 1) / w == 1 ==> (m + 1) % w == m + 1 - w);
        } else {
            assert((m + 1) / w == 2 && (m + 1) % w == 0);
            assert(magnitude_units(m + 1) == (w + 0) * q);
        }
    }
}

/// The comparisons, the negation and the tests do what they say of every two
/// patterns: a number is less than another where it lies before it, both zeros are
/// alike, and what is not a number compares with nothing.
pub proof fn law_comparisons(a: Double, b: Double, lt: bool, le: bool, neg: Double)
    requires
        call_ensures(Double::lt, (a, b), lt),
        call_ensures(Double::le, (a, b), le),
        call_ensures(Double::neg, (a,), neg),
    ensures
        a.nan() || b.nan() ==> !lt && !le,
        !a.nan() && !b.nan() ==> (lt <==> a.units() < b.units()) && (le <==> a.units()
            <= b.units()),
        a.bits <= b.bits <= 0x7ff0_0000_0000_0000 ==> le && (lt <==> a.bits != b.bits),
        neg.units() == -a.units(),
        neg.bits - a.bits == 0x8000_0000_0000_0000 || a.bits - neg.bits == 0x8000_0000_0000_0000,
{
    lemma_magnitude_units_order(a.magnitude(), b.magnitude());
}

/// A double is its bit pattern, and the tests tell what the pattern stands for.
pub proof fn law_bits_are_kept(bits: u64, d: Double, back: u64, nan: bool, finite: bool)
    requires
        call_ensures(Double::from_bits, (bits,), d),
        call_ensures(Double::to_bits, (d,), back),
        call_ensures(Double::is_nan, (d,), nan),
        call_ensures(Double::is_finite, (d,), finite),
    ensures
        back == bits,
        d.bits == bits,
        nan <==> 0x7ff0_0000_0000_0000 < bits < 0x8000_0000_0000_0000 || bits
            > 0xfff0_0000_0000_0000,
        finite <==> bits < 0x7ff0_0000_0000_0000 || 0x8000_0000_0000_0000 <= bits
            < 0xfff0_0000_0000_0000,
{
}

} // verus!
