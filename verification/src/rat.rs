//! Exact rational ray distances.
//!
//! The slab test computes the distance at which a ray crosses an axis plane
//! as a quotient of two integers. Distances are kept as exact fractions with
//! a positive denominator, and compared by cross-multiplication in 128-bit
//! arithmetic, so no rounding ever enters the intersection logic.

use vstd::prelude::*;

verus! {

/// A distance along a ray, the fraction `num / den`. Well-formed values have
/// `den > 0`.
#[derive(Clone, Copy, Debug, PartialEq, Eq, Structural)]
pub struct Rat {
    pub num: i64,
    pub den: i64,
}

impl View for Rat {
    type V = (int, int);

    open spec fn view(&self) -> (int, int) {
        (self.num as int, self.den as int)
    }
}

/// `a <= b`, reading each pair as the fraction `numerator / denominator`
/// with a positive denominator.
pub open spec fn fle(a: (int, int), b: (int, int)) -> bool {
    a.0 * b.1 <= b.0 * a.1
}

/// `a < b`, reading each pair as a fraction with a positive denominator.
pub open spec fn flt(a: (int, int), b: (int, int)) -> bool {
    a.0 * b.1 < b.0 * a.1
}

/// The product of two values in `i64` range stays well inside `i128` range.
proof fn lemma_i64_product_in_i128(a: int, b: int)
    by (nonlinear_arith)
    requires
        -0x8000_0000_0000_0000 <= a <= 0x7fff_ffff_ffff_ffff,
        -0x8000_0000_0000_0000 <= b <= 0x7fff_ffff_ffff_ffff,
    ensures
        -0x4000_0000_0000_0000_0000_0000_0000_0000 <= a * b
            <= 0x4000_0000_0000_0000_0000_0000_0000_0000,
{
}

impl Rat {
    /// A well-formed distance has a positive denominator.
    pub open spec fn wf(self) -> bool {
        0 < self.den
    }

    /// Exact `self <= other` by cross-multiplication.
    pub fn le(&self, other: &Rat) -> (r: bool)
        ensures
            r == fle(self@, other@),
    {
        proof {
            lemma_i64_product_in_i128(self.num as int, other.den as int);
            lemma_i64_product_in_i128(other.num as int, self.den as int);
        }
        (self.num as i128) * (other.den as i128) <= (other.num as i128) * (self.den as i128)
    }

    /// Exact `self < other` by cross-multiplication.
    pub fn lt(&self, other: &Rat) -> (r: bool)
        ensures
            r == flt(self@, other@),
    {
        proof {
            lemma_i64_product_in_i128(self.num as int, other.den as int);
            lemma_i64_product_in_i128(other.num as int, self.den as int);
        }
        (self.num as i128) * (other.den as i128) < (other.num as i128) * (self.den as i128)
    }

    /// Whether this distance equals the integer `k` exactly.
    pub fn eq_int(&self, k: i64) -> (r: bool)
        ensures
            r == (self.num as int == k * self.den),
    {
        proof {
            lemma_i64_product_in_i128(k as int, self.den as int);
        }
        (self.num as i128) == (k as i128) * (self.den as i128)
    }
}

/// Fraction comparison is total: of two fractions, one is at most the other.
pub proof fn lemma_fle_total(a: (int, int), b: (int, int))
    ensures
        fle(a, b) || fle(b, a),
{
}

/// Fraction comparison is transitive over positive denominators.
pub proof fn lemma_fle_trans(a: (int, int), b: (int, int), c: (int, int))
    by (nonlinear_arith)
    requires
        0 < a.1,
        0 < b.1,
        0 < c.1,
        fle(a, b),
        fle(b, c),
    ensures
        fle(a, c),
{
}

/// A strict bound composes with a non-strict one, over positive denominators.
pub proof fn lemma_flt_fle_trans(a: (int, int), b: (int, int), c: (int, int))
    by (nonlinear_arith)
    requires
        0 < a.1,
        0 < b.1,
        0 < c.1,
        flt(a, b),
        fle(b, c),
    ensures
        flt(a, c),
{
}

} // verus!
