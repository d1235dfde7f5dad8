//! Exact rational fractions for positions along a line of response.
//!
//! A [`Frac`] carries a rational `num / den` with a positive denominator in an
//! `i64` pair; all comparisons are made by cross-multiplication in `i128`, so
//! no rounding ever happens.  The bound [`FRAC_BOUND`] on both fields keeps
//! every cross product far below `i128` overflow.

use vstd::prelude::*;

verus! {

/// Magnitude bound on the fields of a well-formed [`Frac`]: 2^38.
pub const FRAC_BOUND: i64 = 274877906944;

/// An exact rational `num / den`.  Well-formed values have `0 < den` and both
/// fields bounded by [`FRAC_BOUND`], see [`Frac::wf`].
#[derive(Clone, Copy, Debug, PartialEq, Eq, Structural)]
pub struct Frac {
    pub num: i64,
    pub den: i64,
}

/// Spec-level rational with unbounded integer fields, used to state sums of
/// fractions without any overflow concern.
pub struct Rat {
    pub n: int,
    pub d: int,
}

impl Frac {
    /// Well-formed: positive denominator, both fields within [`FRAC_BOUND`].
    pub open spec fn wf(self) -> bool {
        0 < self.den <= FRAC_BOUND && -FRAC_BOUND <= self.num <= FRAC_BOUND
    }

    /// The unbounded spec-level view of this fraction.
    pub open spec fn rat(self) -> Rat {
        Rat { n: self.num as int, d: self.den as int }
    }
}

/// `a <= b` as rationals (meaningful when both denominators are positive).
pub open spec fn fle(a: Frac, b: Frac) -> bool {
    a.num * b.den <= b.num * a.den
}

/// `a < b` as rationals (meaningful when both denominators are positive).
pub open spec fn flt(a: Frac, b: Frac) -> bool {
    a.num * b.den < b.num * a.den
}

/// The rational zero.
pub open spec fn spec_frac_zero() -> Frac {
    Frac { num: 0, den: 1 }
}

/// The rational one.
pub open spec fn spec_frac_one() -> Frac {
    Frac { num: 1, den: 1 }
}

/// Exact equality of spec rationals (meaningful for positive denominators).
pub open spec fn req(a: Rat, b: Rat) -> bool {
    a.n * b.d == b.n * a.d
}

/// `a <= b` on spec rationals (meaningful for positive denominators).
pub open spec fn rle(a: Rat, b: Rat) -> bool {
    a.n * b.d <= b.n * a.d
}

/// `a < b` on spec rationals (meaningful for positive denominators).
pub open spec fn rlt(a: Rat, b: Rat) -> bool {
    a.n * b.d < b.n * a.d
}

/// The spec rational zero.
pub open spec fn rat_zero() -> Rat {
    Rat { n: 0, d: 1 }
}

/// The spec rational one.
pub open spec fn rat_one() -> Rat {
    Rat { n: 1, d: 1 }
}

/// The larger of two spec rationals, preferring the second on ties.
pub open spec fn rmax(a: Rat, b: Rat) -> Rat {
    if rle(a, b) {
        b
    } else {
        a
    }
}

/// The smaller of two spec rationals, preferring the first on ties.
pub open spec fn rmin(a: Rat, b: Rat) -> Rat {
    if rle(a, b) {
        a
    } else {
        b
    }
}

/// Transitivity of `rle` (positive denominators).
pub proof fn lemma_rle_trans(a: Rat, b: Rat, c: Rat)
    by (nonlinear_arith)
    requires
        a.d > 0,
        b.d > 0,
        c.d > 0,
        rle(a, b),
        rle(b, c),
    ensures
        rle(a, c),
{
}

/// Transitivity of `rlt` followed by `rle` (positive denominators).
pub proof fn lemma_rlt_rle_trans(a: Rat, b: Rat, c: Rat)
    by (nonlinear_arith)
    requires
        a.d > 0,
        b.d > 0,
        c.d > 0,
        rlt(a, b),
        rle(b, c),
    ensures
        rlt(a, c),
{
}

/// `a + b` on spec rationals.
pub open spec fn radd(a: Rat, b: Rat) -> Rat {
    Rat { n: a.n * b.d + b.n * a.d, d: a.d * b.d }
}

/// `a - b` on spec rationals.
pub open spec fn rsub(a: Rat, b: Rat) -> Rat {
    Rat { n: a.n * b.d - b.n * a.d, d: a.d * b.d }
}

/// `|x * y| <= bx * by` whenever `|x| <= bx` and `|y| <= by`.
pub proof fn lemma_mul_bound(x: int, y: int, bx: int, by: int)
    by (nonlinear_arith)
    requires
        -bx <= x <= bx,
        -by <= y <= by,
        0 <= bx,
        0 <= by,
    ensures
        -(bx * by) <= x * y <= bx * by,
{
}

/// The constant zero fraction.
pub fn frac_zero() -> (r: Frac)
    ensures
        r == spec_frac_zero(),
{
    Frac { num: 0, den: 1 }
}

/// The constant one fraction.
pub fn frac_one() -> (r: Frac)
    ensures
        r == spec_frac_one(),
{
    Frac { num: 1, den: 1 }
}

/// Exact comparison `a <= b` by cross-multiplication.
pub fn frac_le(a: Frac, b: Frac) -> (r: bool)
    requires
        a.wf(),
        b.wf(),
    ensures
        r == fle(a, b),
{
    proof {
        lemma_mul_bound(a.num as int, b.den as int, FRAC_BOUND as int, FRAC_BOUND as int);
        lemma_mul_bound(b.num as int, a.den as int, FRAC_BOUND as int, FRAC_BOUND as int);
    }
    (a.num as i128) * (b.den as i128) <= (b.num as i128) * (a.den as i128)
}

/// Exact comparison `a < b` by cross-multiplication.
pub fn frac_lt(a: Frac, b: Frac) -> (r: bool)
    requires
        a.wf(),
        b.wf(),
    ensures
        r == flt(a, b),
{
    proof {
        lemma_mul_bound(a.num as int, b.den as int, FRAC_BOUND as int, FRAC_BOUND as int);
        lemma_mul_bound(b.num as int, a.den as int, FRAC_BOUND as int, FRAC_BOUND as int);
    }
    (a.num as i128) * (b.den as i128) < (b.num as i128) * (a.den as i128)
}

/// The larger of two fractions under the exact rational order.
pub fn frac_max(a: Frac, b: Frac) -> (r: Frac)
    requires
        a.wf(),
        b.wf(),
    ensures
        r.wf(),
        r == a || r == b,
        fle(a, r),
        fle(b, r),
        r.rat() == rmax(a.rat(), b.rat()),
{
    if frac_le(a, b) {
        b
    } else {
        proof {
            lemma_fle_total(a, b);
        }
        a
    }
}

/// The smaller of two fractions under the exact rational order.
pub fn frac_min(a: Frac, b: Frac) -> (r: Frac)
    requires
        a.wf(),
        b.wf(),
    ensures
        r.wf(),
        r == a || r == b,
        fle(r, a),
        fle(r, b),
        r.rat() == rmin(a.rat(), b.rat()),
{
    if frac_le(a, b) {
        a
    } else {
        proof {
            lemma_fle_total(a, b);
        }
        b
    }
}

/// The order is total: when `a <= b` fails, `b <= a` holds.
pub proof fn lemma_fle_total(a: Frac, b: Frac)
    requires
        !fle(a, b),
    ensures
        fle(b, a),
        flt(b, a),
{
}

} // verus!
