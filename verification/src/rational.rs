//! Exact rational numbers: a signed numerator over a positive denominator.
//!
//! Values are not reduced to lowest terms; two rationals are compared by
//! cross-multiplication. The magnitude bounds used by callers keep every
//! intermediate product inside `i128`.

use vstd::prelude::*;

verus! {

/// Largest numerator magnitude / denominator accepted by [`Rat::eq_rat`]:
/// cross products of two such rationals still fit in `i128`.
pub const EQ_BOUND: i128 = 10_000_000_000_000_000_000;

/// A rational number `num / den` with `den > 0`.
#[derive(Clone, Copy, Debug, PartialEq, Eq, Structural)]
pub struct Rat {
    pub num: i128,
    pub den: i128,
}

impl Rat {
    /// A denominator is always positive.
    pub open spec fn wf(self) -> bool {
        self.den > 0
    }

    /// Both components are small: `|num| <= b` and `0 < den <= b`.
    pub open spec fn bounded(self, b: int) -> bool {
        -b <= self.num <= b && 0 < self.den <= b
    }

    /// The mathematical pair (numerator, denominator) of this value.
    pub open spec fn as_frac(self) -> (int, int) {
        (self.num as int, self.den as int)
    }

    /// The whole number `n / 1`.
    pub fn from_int(n: i64) -> (r: Rat)
        ensures
            r.num == n as int,
            r.den == 1,
    {
        Rat { num: n as i128, den: 1 }
    }

    /// The fraction `num / den`.
    pub fn new(num: i64, den: i64) -> (r: Rat)
        requires
            den > 0,
        ensures
            r.num == num as int,
            r.den == den as int,
    {
        Rat { num: num as i128, den: den as i128 }
    }

    /// Exact equality of the two rational values, by cross-multiplication.
    pub fn eq_rat(&self, other: &Rat) -> (r: bool)
        requires
            self.bounded(EQ_BOUND as int),
            other.bounded(EQ_BOUND as int),
        ensures
            r == frac_eq(self.as_frac(), other.as_frac()),
    {
        proof {
            assert(-(EQ_BOUND * EQ_BOUND) <= self.num * other.den <= EQ_BOUND * EQ_BOUND
                && -(EQ_BOUND * EQ_BOUND) <= other.num * self.den <= EQ_BOUND * EQ_BOUND)
                by (nonlinear_arith)
                requires
                    self.bounded(EQ_BOUND as int),
                    other.bounded(EQ_BOUND as int),
            ;
        }
        self.num * other.den == other.num * self.den
    }
}

/// Two fractions denote the same rational: `a.0 / a.1 == b.0 / b.1`,
/// stated by cross-multiplication (both denominators positive).
pub open spec fn frac_eq(a: (int, int), b: (int, int)) -> bool {
    a.0 * b.1 == b.0 * a.1
}

} // verus!
