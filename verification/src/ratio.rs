//! Exact rational numbers and the normalization rule.
//!
//! Every feature the pipeline produces is a linear rescale of integer
//! quantities (goal counts, timestamps, league codes), so the library keeps
//! feature values as exact fractions instead of machine floats.  The
//! normalization rule is `(v - min) / (max - min)`, with the defined
//! fallback `v - min` when the range is degenerate (`max == min`): the
//! fallback is not an error, and callers must tolerate values outside
//! `[0, 1]` in that case.
use vstd::prelude::*;

verus! {

/// An exact rational number `num / den`.  Well-formed values keep
/// `den >= 1`; the numerator carries the sign.
#[derive(Clone, Copy, Debug, PartialEq, Eq, Structural)]
pub struct Ratio {
    pub num: i128,
    pub den: i128,
}

/// The mathematical (unbounded) rational pair that a `Ratio` stands for.
pub struct Rat {
    pub num: int,
    pub den: int,
}

impl View for Ratio {
    type V = Rat;

    open spec fn view(&self) -> Rat {
        Rat { num: self.num as int, den: self.den as int }
    }
}

/// The rational `n / 1`.
pub open spec fn rat_int(n: int) -> Rat {
    Rat { num: n, den: 1 }
}

/// A well-formed rational keeps its denominator positive.
pub open spec fn rat_wf(a: Rat) -> bool {
    a.den >= 1
}

/// Value equality of rationals by cross-multiplication.
pub open spec fn rat_eq(a: Rat, b: Rat) -> bool {
    a.num * b.den == b.num * a.den
}

/// `a <= b` by cross-multiplication; meaningful for well-formed rationals.
pub open spec fn rat_le(a: Rat, b: Rat) -> bool {
    a.num * b.den <= b.num * a.den
}

/// `a < b` by cross-multiplication; meaningful for well-formed rationals.
pub open spec fn rat_lt(a: Rat, b: Rat) -> bool {
    a.num * b.den < b.num * a.den
}

/// Exact rational sum.
pub open spec fn rat_add(a: Rat, b: Rat) -> Rat {
    Rat { num: a.num * b.den + b.num * a.den, den: a.den * b.den }
}

/// Exact rational difference.
pub open spec fn rat_sub(a: Rat, b: Rat) -> Rat {
    Rat { num: a.num * b.den - b.num * a.den, den: a.den * b.den }
}

/// Exact rational quotient.
pub open spec fn rat_div(a: Rat, b: Rat) -> Rat {
    Rat { num: a.num * b.den, den: a.den * b.num }
}

/// The normalization rule: `(v - min) / (max - min)`, or the raw offset
/// `v - min` when the range is degenerate.
pub open spec fn spec_normalize(v: Rat, min: Rat, max: Rat) -> Rat {
    if rat_eq(max, min) {
        rat_sub(v, min)
    } else {
        rat_div(rat_sub(v, min), rat_sub(max, min))
    }
}

/// `x` is representable as an `i128`.
pub open spec fn fits_i128(x: int) -> bool {
    i128::MIN <= x <= i128::MAX
}

/// All intermediate products of `normalize(v, min, max)` fit in an `i128`.
pub open spec fn normalize_fits(v: Rat, min: Rat, max: Rat) -> bool {
    &&& fits_i128(v.num * min.den)
    &&& fits_i128(min.num * v.den)
    &&& fits_i128(v.num * min.den - min.num * v.den)
    &&& fits_i128(v.den * min.den)
    &&& fits_i128(max.num * min.den)
    &&& fits_i128(min.num * max.den)
    &&& fits_i128(max.num * min.den - min.num * max.den)
    &&& fits_i128(max.den * min.den)
    &&& fits_i128((v.num * min.den - min.num * v.den) * (max.den * min.den))
    &&& fits_i128((v.den * min.den) * (max.num * min.den - min.num * max.den))
}

impl Ratio {
    /// Well-formed: positive denominator.
    pub open spec fn wf(self) -> bool {
        self.den >= 1
    }

    /// The whole number `n` as a `Ratio`.
    pub fn from_int(n: i64) -> (r: Ratio)
        ensures
            r@ == rat_int(n as int),
            r.wf(),
    {
        Ratio { num: n as i128, den: 1 }
    }

    /// The rational zero.
    pub fn zero() -> (r: Ratio)
        ensures
            r@ == rat_int(0),
            r.wf(),
    {
        Ratio { num: 0, den: 1 }
    }

    /// The rational one.
    pub fn one() -> (r: Ratio)
        ensures
            r@ == rat_int(1),
            r.wf(),
    {
        Ratio { num: 1, den: 1 }
    }

    /// Value equality: `self` and `other` stand for the same rational.
    pub fn eq_value(&self, other: &Ratio) -> (b: bool)
        requires
            fits_i128(self.num * other.den),
            fits_i128(other.num * self.den),
        ensures
            b == rat_eq(self@, other@),
    {
        self.num * other.den == other.num * self.den
    }

    /// Exact rational sum.
    pub fn add(self, other: Ratio) -> (r: Ratio)
        requires
            fits_i128(self@.num * other@.den),
            fits_i128(other@.num * self@.den),
            fits_i128(self@.num * other@.den + other@.num * self@.den),
            fits_i128(self@.den * other@.den),
        ensures
            r@ == rat_add(self@, other@),
            self.wf() && other.wf() ==> r.wf(),
    {
        let r = Ratio { num: self.num * other.den + other.num * self.den, den: self.den * other.den };
        proof {
            if self.wf() && other.wf() {
                assert(self.den * other.den >= 1) by (nonlinear_arith)
                    requires
                        self.den >= 1,
                        other.den >= 1,
                {
                }
            }
        }
        r
    }
}

/// Rescales `v` into the range `[min, max]`: `(v - min) / (max - min)`.
/// When `max == min` the result is the raw offset `v - min`, a defined
/// fallback rather than an error; it can lie outside `[0, 1]`.
pub fn normalize(v: Ratio, min: Ratio, max: Ratio) -> (r: Ratio)
    requires
        v.wf(),
        min.wf(),
        max.wf(),
        normalize_fits(v@, min@, max@),
    ensures
        r@ == spec_normalize(v@, min@, max@),
        rat_eq(max@, min@) ==> r.wf(),
        rat_lt(min@, max@) ==> r.wf(),
{
    let s1n: i128 = v.num * min.den - min.num * v.den;
    let s1d: i128 = v.den * min.den;
    let s2n: i128 = max.num * min.den - min.num * max.den;
    let s2d: i128 = max.den * min.den;
    proof {
        assert(s1d >= 1) by (nonlinear_arith)
            requires
                v.den >= 1,
                min.den >= 1,
                s1d == v.den * min.den,
        {
        }
    }
    if s2n == 0 {
        Ratio { num: s1n, den: s1d }
    } else {
        let r = Ratio { num: s1n * s2d, den: s1d * s2n };
        proof {
            if rat_lt(min@, max@) {
                assert(s1d * s2n >= 1) by (nonlinear_arith)
                    requires
                        s1d >= 1,
                        s2n >= 1,
                {
                }
            }
        }
        r
    }
}

/// Law: the normalized value lies in `[0, 1]` whenever `min <= v <= max`
/// and `min < max`.
#[verifier::rlimit(60)]
pub proof fn lemma_normalize_unit(v: Rat, min: Rat, max: Rat)
    requires
        rat_wf(v),
        rat_wf(min),
        rat_wf(max),
        rat_le(min, v),
        rat_le(v, max),
        rat_lt(min, max),
    ensures
        rat_wf(spec_normalize(v, min, max)),
        rat_le(rat_int(0), spec_normalize(v, min, max)),
        rat_le(spec_normalize(v, min, max), rat_int(1)),
{
    let r = spec_normalize(v, min, max);
    assert(!rat_eq(max, min));
    assert(r.den >= 1) by (nonlinear_arith)
        requires
            v.den >= 1,
            min.den >= 1,
            max.den >= 1,
            min.num * max.den < max.num * min.den,
            r.den == (v.den * min.den) * (max.num * min.den - min.num * max.den),
    {
    }
    assert(rat_le(rat_int(0), r)) by (nonlinear_arith)
        requires
            v.den >= 1,
            min.den >= 1,
            max.den >= 1,
            min.num * v.den <= v.num * min.den,
            r.num == (v.num * min.den - min.num * v.den) * (max.den * min.den),
    {
    }
    let a = v.num;
    let b = v.den;
    let c = min.num;
    let d = min.den;
    let e = max.num;
    let f = max.den;
    let lhs = (a * d - c * b) * (f * d);
    let rhs = (b * d) * (e * d - c * f);
    assert(lhs == a * f * (d * d) - c * b * f * d) by (nonlinear_arith)
        requires
            lhs == (a * d - c * b) * (f * d),
    {
    }
    assert((b * d) * (e * d - c * f) == (b * d) * (e * d) - (b * d) * (c * f)) by (nonlinear_arith);
    assert((b * d) * (e * d) == e * b * (d * d)) by (nonlinear_arith);
    assert((b * d) * (c * f) == c * b * f * d) by (nonlinear_arith);
    assert(rhs == e * b * (d * d) - c * b * f * d);
    assert(a * f * (d * d) <= e * b * (d * d)) by (nonlinear_arith)
        requires
            a * f <= e * b,
            d >= 1,
    {
    }
    assert(r.num == lhs);
    assert(r.den == rhs);
    assert(rat_le(r, rat_int(1)));
}

} // verus!
