//! Scatter-correction histograms over line-of-response features.
//!
//! A scattergram is a pair of multi-axis histograms ("trues" and
//! "scatters") sharing one axis layout: azimuth, axial midpoint, axial
//! difference, radial distance from the scanner axis, and time difference.
//! It is filled once during a scatter-estimation pass and then queried
//! read-only for a per-event multiplicative correction ratio.
//!
//! All binning is exact integer arithmetic.  Axial, radial and time axes
//! are uniform with an underflow and an overflow bin; the radial feature
//! (a quotient involving a square root) is binned by comparing squares, so
//! no rounding beyond the bin resolution ever occurs.  The azimuth axis is
//! cyclic over an exact, scale-invariant azimuth surrogate that is uniform
//! in the tangent within each octant rather than in the angle itself: this
//! keeps the binning an exact function of the integer coordinates.

use vstd::arithmetic::div_mod::{
    lemma_fundamental_div_mod, lemma_fundamental_div_mod_converse_mod,
    lemma_mod_division_less_than_divisor,
};
use vstd::prelude::*;

use crate::error::Error;
use crate::fov::COORD_LIMIT;
use crate::image::FIXED_ONE;
use crate::lor::Lor;

verus! {

/// Largest admissible bin count of one histogram axis.
pub const BIN_LIMIT: usize = 64;

/// Largest admissible magnitude of an axis bound or feature value: 2^26.
pub const FEATURE_LIMIT: i64 = 67108864;

/// Resolution of the azimuth surrogate within one octant: 2^16.
pub const OCTANT_ONE: i64 = 65536;

/// Distinguish between true, scatter and random prompt signals.
#[derive(Clone, Copy, Debug, PartialEq, Eq, Structural)]
pub enum Prompt {
    True,
    Scatter,
    Random,
}

/// The feature of a line of response an axis bins.
#[derive(Clone, Copy, Debug, PartialEq, Eq, Structural)]
pub enum LorFeature {
    /// Doubled axial midpoint `z1 + z2` (doubling keeps it an integer).
    AxialMidpoint,
    /// Axial difference `|z1 - z2|`.
    AxialDifference,
    /// Distance of the line from the scanner (`z`) axis.
    RadialDistance,
    /// Azimuth of the line's direction in the `x`-`y` plane.
    Azimuth,
    /// Time difference `t2 - t1`.
    TimeDifference,
}

/// The binning strategy of one axis.
#[derive(Clone, Copy, Debug, PartialEq, Eq, Structural)]
pub enum AxisKind {
    /// `bins` equal cells covering `[lo, hi)`, plus an underflow bin `0`
    /// and an overflow bin `bins + 1`.
    Uniform { bins: usize, lo: i64, hi: i64 },
    /// `bins` equal cells wrapping around the whole circle.
    Cyclic { bins: usize },
}

/// One histogram axis: a feature and how to bin it.
#[derive(Clone, Copy, Debug, PartialEq, Eq, Structural)]
pub struct LorAxis {
    pub feature: LorFeature,
    pub kind: AxisKind,
}

/// The doubled axial midpoint of a line of response.
pub open spec fn spec_zmid2(lor: Lor) -> int {
    lor.p1.z + lor.p2.z
}

/// The axial difference of a line of response.
pub open spec fn spec_dz(lor: Lor) -> int {
    if lor.p1.z >= lor.p2.z {
        lor.p1.z - lor.p2.z
    } else {
        lor.p2.z - lor.p1.z
    }
}

/// The uniform bin of feature value `f`: `0` below `lo`, `bins + 1` at or
/// above `hi`, else one plus the cell index.
pub open spec fn spec_uniform_index(f: int, lo: int, hi: int, bins: int) -> int {
    if f < lo {
        0
    } else if f >= hi {
        bins + 1
    } else {
        1 + ((f - lo) * bins) / (hi - lo)
    }
}

/// The azimuth surrogate of a direction: a value in `[0, 8 * OCTANT_ONE]`
/// that is scale-invariant and piecewise monotone in the angle, uniform in
/// the tangent within each octant.
pub open spec fn spec_azimuth_key(dx: int, dy: int) -> int {
    let ax = if dx >= 0 {
        dx
    } else {
        -dx
    };
    let ay = if dy >= 0 {
        dy
    } else {
        -dy
    };
    if dx >= 0 && dy >= 0 {
        if ay <= ax {
            (OCTANT_ONE * ay) / ax
        } else {
            2 * OCTANT_ONE - (OCTANT_ONE * ax) / ay
        }
    } else if dx < 0 && dy >= 0 {
        if ax <= ay {
            2 * OCTANT_ONE + (OCTANT_ONE * ax) / ay
        } else {
            4 * OCTANT_ONE - (OCTANT_ONE * ay) / ax
        }
    } else if dx < 0 && dy < 0 {
        if ay <= ax {
            4 * OCTANT_ONE + (OCTANT_ONE * ay) / ax
        } else {
            6 * OCTANT_ONE - (OCTANT_ONE * ax) / ay
        }
    } else {
        if ax <= ay {
            6 * OCTANT_ONE + (OCTANT_ONE * ax) / ay
        } else {
            8 * OCTANT_ONE - (OCTANT_ONE * ay) / ax
        }
    }
}

/// The cyclic bin of an azimuth key.
pub open spec fn spec_cyclic_index(key: int, bins: int) -> int {
    ((key * bins) / (8 * OCTANT_ONE)) % bins
}

/// The azimuth key of the undirected line of response: the direction key,
/// shifted by half the circle when the signed planar offset of the line
/// from the origin ([`spec_radial_cross`]) is negative.  Swapping the two
/// endpoints turns the direction by half a circle and changes the sign of
/// the offset, so the two shifts cancel and both orientations of a line
/// name the same bin ([`lemma_azimuth_swap_invariant`]).
pub open spec fn spec_line_azimuth_key(lor: Lor) -> int {
    let dx = lor.p2.x - lor.p1.x;
    let dy = lor.p2.y - lor.p1.y;
    let key = spec_azimuth_key(dx as int, dy as int);
    if spec_radial_cross(lor) < 0 {
        (key + 4 * OCTANT_ONE) % (8 * OCTANT_ONE)
    } else {
        key
    }
}

impl LorAxis {
    /// Well-formed: bin count within limits; uniform bounds ordered and
    /// within the feature range.
    pub open spec fn wf(self) -> bool {
        match self.kind {
            AxisKind::Uniform { bins, lo, hi } => {
                &&& 0 < bins <= BIN_LIMIT
                &&& -FEATURE_LIMIT <= lo < hi <= FEATURE_LIMIT
            },
            AxisKind::Cyclic { bins } => 0 < bins <= BIN_LIMIT,
        }
    }

    /// The number of addressable bins, under- and overflow included.
    pub open spec fn spec_num_bins(self) -> int {
        match self.kind {
            AxisKind::Uniform { bins, .. } => bins + 2,
            AxisKind::Cyclic { bins } => bins as int,
        }
    }

    /// The number of addressable bins, under- and overflow included.
    pub fn num_bins(&self) -> (r: usize)
        requires
            self.wf(),
        ensures
            r == self.spec_num_bins(),
            0 < r <= BIN_LIMIT + 2,
    {
        match self.kind {
            AxisKind::Uniform { bins, .. } => bins + 2,
            AxisKind::Cyclic { bins } => bins,
        }
    }
}

/// A bound on floor division: a non-negative dividend strictly below
/// `bins` cells stays strictly below `bins`.
proof fn lemma_uniform_cell_range(f: int, lo: int, hi: int, bins: int)
    requires
        lo <= f < hi,
        0 < bins,
    ensures
        0 <= ((f - lo) * bins) / (hi - lo) < bins,
{
    let num = (f - lo) * bins;
    let d = hi - lo;
    assert(0 <= num < d * bins) by (nonlinear_arith)
        requires
            0 <= f - lo < d,
            0 < bins,
            num == (f - lo) * bins,
    ;
    lemma_fundamental_div_mod(num, d);
    lemma_mod_division_less_than_divisor(num, d);
    assert(0 <= num / d < bins) by (nonlinear_arith)
        requires
            num == d * (num / d) + num % d,
            0 <= num % d < d,
            0 <= num < d * bins,
            0 < d,
    ;
}

/// Exact uniform binning of an integer feature value.
fn uniform_index_exec(f: i64, lo: i64, hi: i64, bins: usize) -> (r: usize)
    requires
        -FEATURE_LIMIT <= f <= FEATURE_LIMIT,
        -FEATURE_LIMIT <= lo < hi <= FEATURE_LIMIT,
        0 < bins <= BIN_LIMIT,
    ensures
        r == spec_uniform_index(f as int, lo as int, hi as int, bins as int),
        r < bins + 2,
{
    if f < lo {
        return 0;
    }
    if f >= hi {
        return bins + 1;
    }
    proof {
        lemma_uniform_cell_range(f as int, lo as int, hi as int, bins as int);
        assert(0 <= (f - lo) * (bins as i64) <= 137438953472 * 64) by (nonlinear_arith)
            requires
                0 <= f - lo <= 137438953472,
                0 < bins <= 64,
        ;
    }
    let cell: i64 = ((f - lo) * (bins as i64)) / (hi - lo);
    1 + (cell as usize)
}

/// Exact azimuth surrogate of a non-degenerate direction.
fn azimuth_key_exec(dx: i64, dy: i64) -> (r: i64)
    requires
        !(dx == 0 && dy == 0),
        -2 * COORD_LIMIT <= dx <= 2 * COORD_LIMIT,
        -2 * COORD_LIMIT <= dy <= 2 * COORD_LIMIT,
    ensures
        r == spec_azimuth_key(dx as int, dy as int),
        0 <= r <= 8 * OCTANT_ONE,
{
    let ax: i64 = if dx >= 0 {
        dx
    } else {
        -dx
    };
    let ay: i64 = if dy >= 0 {
        dy
    } else {
        -dy
    };
    proof {
        crate::frac::lemma_mul_bound(OCTANT_ONE as int, ax as int, OCTANT_ONE as int, 2 * COORD_LIMIT as int);
        crate::frac::lemma_mul_bound(OCTANT_ONE as int, ay as int, OCTANT_ONE as int, 2 * COORD_LIMIT as int);
        if ax > 0 {
            lemma_sub_ratio_bound(ay as int, ax as int);
        }
        if ay > 0 {
            lemma_sub_ratio_bound(ax as int, ay as int);
        }
    }
    if dx >= 0 && dy >= 0 {
        if ay <= ax {
            (OCTANT_ONE * ay) / ax
        } else {
            2 * OCTANT_ONE - (OCTANT_ONE * ax) / ay
        }
    } else if dx < 0 && dy >= 0 {
        if ax <= ay {
            2 * OCTANT_ONE + (OCTANT_ONE * ax) / ay
        } else {
            4 * OCTANT_ONE - (OCTANT_ONE * ay) / ax
        }
    } else if dx < 0 && dy < 0 {
        if ay <= ax {
            4 * OCTANT_ONE + (OCTANT_ONE * ay) / ax
        } else {
            6 * OCTANT_ONE - (OCTANT_ONE * ax) / ay
        }
    } else {
        if ax <= ay {
            6 * OCTANT_ONE + (OCTANT_ONE * ax) / ay
        } else {
            8 * OCTANT_ONE - (OCTANT_ONE * ay) / ax
        }
    }
}

/// Within an octant the tangent ratio scaled by [`OCTANT_ONE`] stays in
/// `[0, OCTANT_ONE]`.
proof fn lemma_sub_ratio_bound(small: int, big: int)
    requires
        0 <= small,
        0 < big,
    ensures
        small <= big ==> 0 <= (OCTANT_ONE * small) / big <= OCTANT_ONE,
        0 <= (OCTANT_ONE * small) / big,
{
    lemma_fundamental_div_mod(OCTANT_ONE * small, big);
    lemma_mod_division_less_than_divisor(OCTANT_ONE * small, big);
    let q = (OCTANT_ONE * small) / big;
    assert(0 <= OCTANT_ONE * small) by (nonlinear_arith)
        requires
            0 <= small,
    ;
    assert(0 <= q) by (nonlinear_arith)
        requires
            OCTANT_ONE * small == big * q + (OCTANT_ONE * small) % big,
            0 <= (OCTANT_ONE * small) % big < big,
            0 <= OCTANT_ONE * small,
            0 < big,
    ;
    if small <= big {
        assert(OCTANT_ONE * small <= big * OCTANT_ONE) by (nonlinear_arith)
            requires
                small <= big,
                0 <= small,
        ;
        assert(q <= OCTANT_ONE) by (nonlinear_arith)
            requires
                OCTANT_ONE * small == big * q + (OCTANT_ONE * small) % big,
                0 <= (OCTANT_ONE * small) % big < big,
                OCTANT_ONE * small <= big * OCTANT_ONE,
                0 < big,
        ;
    }
}

/// Exact cyclic binning of an azimuth key.
fn cyclic_index_exec(key: i64, bins: usize) -> (r: usize)
    requires
        0 <= key <= 8 * OCTANT_ONE,
        0 < bins <= BIN_LIMIT,
    ensures
        r == spec_cyclic_index(key as int, bins as int),
        r < bins,
{
    proof {
        assert(0 <= key * (bins as i64) <= 8 * OCTANT_ONE * 64) by (nonlinear_arith)
            requires
                0 <= key <= 8 * OCTANT_ONE,
                0 < bins <= 64,
        ;
        lemma_mod_division_less_than_divisor((key * bins) / (8 * OCTANT_ONE), bins as int);
        vstd::arithmetic::div_mod::lemma_div_pos_is_pos(key * bins, 8 * OCTANT_ONE);
    }
    (((key * (bins as i64)) / (8 * OCTANT_ONE)) % (bins as i64)) as usize
}


/// The azimuth key of any direction lies within one full circle.
proof fn lemma_azimuth_key_range(dx: int, dy: int)
    requires
        !(dx == 0 && dy == 0),
    ensures
        0 <= spec_azimuth_key(dx, dy) <= 8 * OCTANT_ONE,
{
    let ax = if dx >= 0 {
        dx
    } else {
        -dx
    };
    let ay = if dy >= 0 {
        dy
    } else {
        -dy
    };
    if ax > 0 {
        lemma_sub_ratio_bound(ay, ax);
    }
    if ay > 0 {
        lemma_sub_ratio_bound(ax, ay);
    }
}

/// Turning a direction by half a circle moves its azimuth key by exactly
/// half the circle, up or down.
proof fn lemma_azimuth_key_antipodal(dx: int, dy: int)
    requires
        !(dx == 0 && dy == 0),
    ensures
        spec_azimuth_key(-dx, -dy) == spec_azimuth_key(dx, dy) + 4 * OCTANT_ONE
            || spec_azimuth_key(-dx, -dy) == spec_azimuth_key(dx, dy) - 4 * OCTANT_ONE,
{
    let ax = if dx >= 0 {
        dx
    } else {
        -dx
    };
    let ay = if dy >= 0 {
        dy
    } else {
        -dy
    };
    if ax > 0 {
        lemma_sub_ratio_bound(ay, ax);
    }
    if ay > 0 {
        lemma_sub_ratio_bound(ax, ay);
    }
}

/// Reduction of a value below two full circles.
proof fn lemma_mod_small_range(v: int)
    requires
        0 <= v < 2 * (8 * OCTANT_ONE),
    ensures
        v % (8 * OCTANT_ONE) == if v < 8 * OCTANT_ONE {
            v
        } else {
            v - 8 * OCTANT_ONE
        },
{
    if v < 8 * OCTANT_ONE {
        lemma_fundamental_div_mod_converse_mod(v, 8 * OCTANT_ONE as int, 0, v);
    } else {
        lemma_fundamental_div_mod_converse_mod(v, 8 * OCTANT_ONE as int, 1, v - 8 * OCTANT_ONE);
    }
}

/// Two azimuth keys a full circle apart (or equal) name the same cyclic
/// bin: the only such pair within `[0, full]` besides equal keys is zero
/// and the full circle, and both bin to zero.
proof fn lemma_cyclic_same(a: int, b: int, bins: int)
    requires
        0 <= a <= 8 * OCTANT_ONE,
        0 <= b <= 8 * OCTANT_ONE,
        a == b || a == b + 8 * OCTANT_ONE || b == a + 8 * OCTANT_ONE,
        0 < bins <= BIN_LIMIT,
    ensures
        spec_cyclic_index(a, bins) == spec_cyclic_index(b, bins),
{
    let full = 8 * OCTANT_ONE as int;
    if a != b {
        // One key is zero and the other the full circle; both bin to zero.
        assert((a == full && b == 0) || (a == 0 && b == full));
        assert(0 * bins == 0) by (nonlinear_arith);
        vstd::arithmetic::div_mod::lemma_basic_div(0, full);
        assert((0 * bins) / full == 0);
        vstd::arithmetic::div_mod::lemma_small_mod(0, bins as nat);
        assert(spec_cyclic_index(0, bins) == 0);
        vstd::arithmetic::div_mod::lemma_div_multiples_vanish(bins as int, full);
        assert((full * bins) / full == bins as int);
        vstd::arithmetic::div_mod::lemma_mod_self_0(bins as int);
        assert(spec_cyclic_index(full, bins) == 0);
    }
}

/// Swapping a lor's endpoints leaves its azimuth bin unchanged whenever
/// the line does not pass exactly through the scanner axis: the direction
/// turns by half a circle, the signed planar offset changes sign, and the
/// two half-circle shifts cancel around the full circle.  (A line through
/// the axis has offset zero on both orientations and gets no flip; its
/// two orientations may bin half a circle apart.)
pub proof fn lemma_azimuth_swap_invariant(axis: LorAxis, lor: Lor, swapped: Lor)
    requires
        axis.wf(),
        axis.kind matches AxisKind::Cyclic { .. },
        swapped.p1 == lor.p2,
        swapped.p2 == lor.p1,
        spec_radial_cross(lor) != 0,
    ensures
        spec_axis_index(axis, swapped) == spec_axis_index(axis, lor),
{
    let x1 = lor.p1.x as int;
    let y1 = lor.p1.y as int;
    let x2 = lor.p2.x as int;
    let y2 = lor.p2.y as int;
    let dx = x2 - x1;
    let dy = y2 - y1;
    // A zero planar direction would make the offset zero as well.
    assert(!(dx == 0 && dy == 0));
    // The signed planar offset changes sign under the swap.
    assert((x1 - x2) * y2 - (y1 - y2) * x2 == -((x2 - x1) * y1 - (y2 - y1) * x1))
        by (nonlinear_arith);
    assert(spec_radial_cross(swapped) == -spec_radial_cross(lor));
    lemma_azimuth_key_range(dx, dy);
    lemma_azimuth_key_range(-dx, -dy);
    lemma_azimuth_key_antipodal(dx, dy);
    let key = spec_azimuth_key(dx, dy);
    let key2 = spec_azimuth_key(-dx, -dy);
    let half = 4 * OCTANT_ONE as int;
    let full = 8 * OCTANT_ONE as int;
    let lk = spec_line_azimuth_key(lor);
    let sk = spec_line_azimuth_key(swapped);
    if spec_radial_cross(lor) < 0 {
        // The original orientation is flipped, the swapped one is not.
        lemma_mod_small_range(key + half);
        assert(sk == key2);
        assert(lk == key + half || lk == key + half - full);
    } else {
        // The swapped orientation is flipped, the original one is not.
        lemma_mod_small_range(key2 + half);
        assert(lk == key);
        assert(sk == key2 + half || sk == key2 + half - full);
    }
    assert(0 <= lk <= full && 0 <= sk <= full);
    assert(lk == sk || lk == sk + full || sk == lk + full);
    match axis.kind {
        AxisKind::Cyclic { bins } => {
            lemma_cyclic_same(lk, sk, bins as int);
        },
        AxisKind::Uniform { .. } => {},
    }
}

/// Mathematical integer square root (spec level).
pub open spec fn spec_isqrt(x: int) -> int
    decreases x,
{
    if x <= 0 {
        0
    } else {
        let r = spec_isqrt(x - 1);
        if (r + 1) * (r + 1) <= x {
            r + 1
        } else {
            r
        }
    }
}

/// The integer square root is never negative.
pub proof fn lemma_isqrt_nonneg(x: int)
    ensures
        spec_isqrt(x) >= 0,
    decreases x,
{
    if x > 0 {
        lemma_isqrt_nonneg(x - 1);
    }
}

/// The defining property of [`spec_isqrt`].
pub proof fn lemma_isqrt_char(x: int)
    requires
        x >= 0,
    ensures
        0 <= spec_isqrt(x),
        spec_isqrt(x) * spec_isqrt(x) <= x,
        x < (spec_isqrt(x) + 1) * (spec_isqrt(x) + 1),
    decreases x,
{
    if x == 0 {
    } else {
        lemma_isqrt_char(x - 1);
        let r = spec_isqrt(x - 1);
        if (r + 1) * (r + 1) <= x {
            assert(x - 1 < (r + 1) * (r + 1));
            assert(x < (r + 2) * (r + 2)) by (nonlinear_arith)
                requires
                    x <= (r + 1) * (r + 1),
                    r >= 0,
            ;
        }
    }
}

/// Any root satisfying the bracketing property is the integer square root.
pub proof fn lemma_isqrt_unique(x: int, r: int)
    requires
        x >= 0,
        r >= 0,
        r * r <= x,
        x < (r + 1) * (r + 1),
    ensures
        r == spec_isqrt(x),
{
    lemma_isqrt_char(x);
    let q = spec_isqrt(x);
    if r < q {
        assert((r + 1) * (r + 1) <= q * q) by (nonlinear_arith)
            requires
                0 <= r + 1 <= q,
        ;
    }
    if q < r {
        assert((q + 1) * (q + 1) <= r * r) by (nonlinear_arith)
            requires
                0 <= q + 1 <= r,
        ;
    }
}

/// Integer square root of a 128-bit value, by bisection.
fn isqrt128(x: u128) -> (r: u128)
    ensures
        r as int == spec_isqrt(x as int),
        (r as int) * (r as int) <= x as int,
        (x as int) < (r as int + 1) * (r as int + 1),
{
    let mut lo: u128 = 0;
    let mut hi: u128 = 18446744073709551616;
    proof {
        assert((hi as int) * (hi as int) > x as int) by (nonlinear_arith)
            requires
                hi == 18446744073709551616,
                x <= 340282366920938463463374607431768211455u128,
        ;
    }
    while lo + 1 < hi
        invariant
            lo < hi <= 18446744073709551616,
            (lo as int) * (lo as int) <= x as int,
            (x as int) < (hi as int) * (hi as int),
        decreases hi - lo,
    {
        let mid: u128 = lo + (hi - lo) / 2;
        proof {
            assert(lo < mid < hi);
            assert((mid as int) * (mid as int) <= 340282366920938463463374607431768211455)
                by (nonlinear_arith)
                requires
                    0 <= mid <= 18446744073709551615,
            ;
        }
        if mid * mid <= x {
            lo = mid;
        } else {
            hi = mid;
        }
    }
    proof {
        lemma_isqrt_unique(x as int, lo as int);
    }
    lo
}

/// The squared-comparison data of the radial feature: `cross` is the
/// doubled-area numerator, `dd` the squared planar direction length.
pub open spec fn spec_radial_cross(lor: Lor) -> int {
    (lor.p2.x - lor.p1.x) * lor.p1.y - (lor.p2.y - lor.p1.y) * lor.p1.x
}

/// Squared planar direction length.
pub open spec fn spec_radial_dd(lor: Lor) -> int {
    (lor.p2.x - lor.p1.x) * (lor.p2.x - lor.p1.x) + (lor.p2.y - lor.p1.y) * (lor.p2.y - lor.p1.y)
}

/// The radial-distance bin: the unique cell `k` with
/// `k * max / bins <= r < (k + 1) * max / bins` (clamped to the overflow
/// bin), found by comparing squares so the square root never rounds.  A
/// line with no planar direction has no radial distance and lands in the
/// overflow bin.
pub open spec fn spec_radial_index(lor: Lor, bins: int, max: int) -> int {
    let dd = spec_radial_dd(lor);
    if dd == 0 {
        bins + 1
    } else {
        let cross = spec_radial_cross(lor);
        let u2 = (cross * cross) * (bins * bins);
        let den = dd * (max * max);
        let k = spec_isqrt(u2 / den);
        if k >= bins {
            bins + 1
        } else {
            1 + k
        }
    }
}

/// Exact radial binning by squared comparison.
fn radial_index_exec(lor: &Lor, bins: usize, max: i64) -> (r: usize)
    requires
        lor.wf(),
        0 < bins <= BIN_LIMIT,
        0 < max <= FEATURE_LIMIT,
    ensures
        r == spec_radial_index(*lor, bins as int, max as int),
        r <= bins + 1,
{
    let dx: i64 = lor.p2.x - lor.p1.x;
    let dy: i64 = lor.p2.y - lor.p1.y;
    proof {
        crate::frac::lemma_mul_bound(dx as int, dx as int, 2 * COORD_LIMIT as int, 2 * COORD_LIMIT as int);
        crate::frac::lemma_mul_bound(dy as int, dy as int, 2 * COORD_LIMIT as int, 2 * COORD_LIMIT as int);
        crate::frac::lemma_mul_bound(dx as int, lor.p1.y as int, 2 * COORD_LIMIT as int, COORD_LIMIT as int);
        crate::frac::lemma_mul_bound(dy as int, lor.p1.x as int, 2 * COORD_LIMIT as int, COORD_LIMIT as int);
        assert(dx * dx >= 0 && dy * dy >= 0) by (nonlinear_arith);
    }
    let dd: i128 = (dx as i128) * (dx as i128) + (dy as i128) * (dy as i128);
    if dd == 0 {
        return bins + 1;
    }
    let cross: i128 = (dx as i128) * (lor.p1.y as i128) - (dy as i128) * (lor.p1.x as i128);
    proof {
        crate::frac::lemma_mul_bound(cross as int, cross as int, 2251799813685248, 2251799813685248);
        assert(cross * cross >= 0) by (nonlinear_arith);
        assert(0 <= (bins as int) * (bins as int) <= 4096) by (nonlinear_arith)
            requires
                0 < bins <= 64,
        ;
        crate::frac::lemma_mul_bound(
            cross as int * cross as int,
            bins as int * bins as int,
            5070602400912917605986812821504,
            4096,
        );
        assert(0 < (max as int) * (max as int) <= 4503599627370496) by (nonlinear_arith)
            requires
                0 < max <= 67108864,
        ;
        assert(0 < dd * ((max as int) * (max as int))) by (nonlinear_arith)
            requires
                dd > 0,
                0 < (max as int) * (max as int),
        ;
        crate::frac::lemma_mul_bound(
            dd as int,
            max as int * max as int,
            9007199254740992,
            4503599627370496,
        );
    }
    let u2: u128 = ((cross * cross) as u128) * (((bins as i128) * (bins as i128)) as u128);
    let den: u128 = (dd as u128) * (((max as i128) * (max as i128)) as u128);
    let q: u128 = u2 / den;
    let k: u128 = isqrt128(q);
    if k >= bins as u128 {
        bins + 1
    } else {
        proof {
            assert(k < 64);
        }
        1 + (k as usize)
    }
}

/// The bin of `lor` on this axis, as a total mathematical function.
pub open spec fn spec_axis_index(axis: LorAxis, lor: Lor) -> int {
    match axis.kind {
        AxisKind::Uniform { bins, lo, hi } => match axis.feature {
            LorFeature::AxialMidpoint => spec_uniform_index(
                spec_zmid2(lor),
                lo as int,
                hi as int,
                bins as int,
            ),
            LorFeature::AxialDifference => spec_uniform_index(
                spec_dz(lor),
                lo as int,
                hi as int,
                bins as int,
            ),
            LorFeature::TimeDifference => spec_uniform_index(
                lor.spec_dt(),
                lo as int,
                hi as int,
                bins as int,
            ),
            LorFeature::RadialDistance => spec_radial_index(lor, bins as int, hi as int),
            LorFeature::Azimuth => 0,
        },
        AxisKind::Cyclic { bins } => {
            let dx = lor.p2.x - lor.p1.x;
            let dy = lor.p2.y - lor.p1.y;
            if dx == 0 && dy == 0 {
                0
            } else {
                spec_cyclic_index(spec_line_azimuth_key(lor), bins as int)
            }
        },
    }
}

/// Feature/kind consistency: the radial feature needs a uniform axis
/// starting at zero, the azimuth a cyclic one, every other feature a
/// uniform one.
pub open spec fn axis_feature_ok(axis: LorAxis) -> bool {
    match axis.feature {
        LorFeature::RadialDistance => axis.kind matches AxisKind::Uniform { lo, .. } && lo == 0,
        LorFeature::Azimuth => axis.kind matches AxisKind::Cyclic { .. },
        _ => axis.kind matches AxisKind::Uniform { .. },
    }
}

/// The axis index is always within the addressable bins.
pub proof fn lemma_axis_index_range(axis: LorAxis, lor: Lor)
    requires
        axis.wf(),
        axis_feature_ok(axis),
    ensures
        0 <= spec_axis_index(axis, lor) < axis.spec_num_bins(),
{
    match axis.kind {
        AxisKind::Uniform { bins, lo, hi } => {
            match axis.feature {
                LorFeature::RadialDistance => {
                    let dd = spec_radial_dd(lor);
                    if dd != 0 {
                        let cross = spec_radial_cross(lor);
                        let u2 = (cross * cross) * (bins as int * bins as int);
                        let den = dd * (hi as int * hi as int);
                        lemma_isqrt_nonneg(u2 / den);
                    }
                },
                LorFeature::Azimuth => {},
                _ => {
                    let f = match axis.feature {
                        LorFeature::AxialMidpoint => spec_zmid2(lor),
                        LorFeature::AxialDifference => spec_dz(lor),
                        _ => lor.spec_dt(),
                    };
                    if lo as int <= f < hi as int {
                        lemma_uniform_cell_range(f, lo as int, hi as int, bins as int);
                    }
                },
            }
        },
        AxisKind::Cyclic { bins } => {
            let dx = lor.p2.x - lor.p1.x;
            let dy = lor.p2.y - lor.p1.y;
            if !(dx == 0 && dy == 0) {
                let key = spec_line_azimuth_key(lor);
                lemma_mod_division_less_than_divisor((key * bins) / (8 * OCTANT_ONE), bins as int);
            }
        },
    }
}

impl LorAxis {
    /// The bin of `lor` on this axis, exactly [`spec_axis_index`].
    pub fn index(&self, lor: &Lor) -> (r: usize)
        requires
            self.wf(),
            axis_feature_ok(*self),
            lor.wf(),
        ensures
            r == spec_axis_index(*self, *lor),
            r < self.spec_num_bins(),
    {
        proof {
            lemma_axis_index_range(*self, *lor);
        }
        match self.kind {
            AxisKind::Uniform { bins, lo, hi } => match self.feature {
                LorFeature::AxialMidpoint => uniform_index_exec(lor.p1.z + lor.p2.z, lo, hi, bins),
                LorFeature::AxialDifference => {
                    let dz: i64 = if lor.p1.z >= lor.p2.z {
                        lor.p1.z - lor.p2.z
                    } else {
                        lor.p2.z - lor.p1.z
                    };
                    uniform_index_exec(dz, lo, hi, bins)
                },
                LorFeature::TimeDifference => uniform_index_exec(lor.t2 - lor.t1, lo, hi, bins),
                LorFeature::RadialDistance => radial_index_exec(lor, bins, hi),
                LorFeature::Azimuth => 0,
            },
            AxisKind::Cyclic { bins } => {
                let dx = lor.p2.x - lor.p1.x;
                let dy = lor.p2.y - lor.p1.y;
                if dx == 0 && dy == 0 {
                    0
                } else {
                    let key = azimuth_key_exec(dx, dy);
                    proof {
                        crate::frac::lemma_mul_bound(
                            dx as int,
                            lor.p1.y as int,
                            2 * COORD_LIMIT as int,
                            COORD_LIMIT as int,
                        );
                        crate::frac::lemma_mul_bound(
                            dy as int,
                            lor.p1.x as int,
                            2 * COORD_LIMIT as int,
                            COORD_LIMIT as int,
                        );
                        lemma_mod_division_less_than_divisor(
                            key + 4 * OCTANT_ONE,
                            8 * OCTANT_ONE,
                        );
                    }
                    let cross: i128 = (dx as i128) * (lor.p1.y as i128) - (dy as i128) * (
                    lor.p1.x as i128);
                    let flipped: i64 = if cross < 0 {
                        (key + 4 * OCTANT_ONE) % (8 * OCTANT_ONE)
                    } else {
                        key
                    };
                    cyclic_index_exec(flipped, bins)
                }
            },
        }
    }
}

/// A cyclic azimuth axis with `nbins` bins.
pub fn axis_phi(nbins: usize) -> (r: LorAxis)
    requires
        0 < nbins <= BIN_LIMIT,
    ensures
        r.wf(),
        axis_feature_ok(r),
        r == (LorAxis { feature: LorFeature::Azimuth, kind: AxisKind::Cyclic { bins: nbins } }),
{
    LorAxis { feature: LorFeature::Azimuth, kind: AxisKind::Cyclic { bins: nbins } }
}

/// A uniform axial-midpoint axis over `[min, max)`.
pub fn axis_z(nbins: usize, min: i64, max: i64) -> (r: LorAxis)
    requires
        0 < nbins <= BIN_LIMIT,
        -COORD_LIMIT <= min < max <= COORD_LIMIT,
    ensures
        r.wf(),
        axis_feature_ok(r),
        r == (LorAxis {
            feature: LorFeature::AxialMidpoint,
            kind: AxisKind::Uniform { bins: nbins, lo: (2 * min) as i64, hi: (2 * max) as i64 },
        }),
{
    LorAxis {
        feature: LorFeature::AxialMidpoint,
        kind: AxisKind::Uniform { bins: nbins, lo: 2 * min, hi: 2 * max },
    }
}

/// A uniform axial-difference axis over `[0, max)`.
pub fn axis_dz(nbins: usize, max: i64) -> (r: LorAxis)
    requires
        0 < nbins <= BIN_LIMIT,
        0 < max <= FEATURE_LIMIT,
    ensures
        r.wf(),
        axis_feature_ok(r),
        r == (LorAxis {
            feature: LorFeature::AxialDifference,
            kind: AxisKind::Uniform { bins: nbins, lo: 0, hi: max },
        }),
{
    LorAxis {
        feature: LorFeature::AxialDifference,
        kind: AxisKind::Uniform { bins: nbins, lo: 0, hi: max },
    }
}

/// A uniform radial-distance axis over `[0, max)`.
pub fn axis_r(nbins: usize, max: i64) -> (r: LorAxis)
    requires
        0 < nbins <= BIN_LIMIT,
        0 < max <= FEATURE_LIMIT,
    ensures
        r.wf(),
        axis_feature_ok(r),
        r == (LorAxis {
            feature: LorFeature::RadialDistance,
            kind: AxisKind::Uniform { bins: nbins, lo: 0, hi: max },
        }),
{
    LorAxis {
        feature: LorFeature::RadialDistance,
        kind: AxisKind::Uniform { bins: nbins, lo: 0, hi: max },
    }
}

/// A uniform time-difference axis over `[-max, max)`.
pub fn axis_t(nbins: usize, max: i64) -> (r: LorAxis)
    requires
        0 < nbins <= BIN_LIMIT,
        0 < max <= 33554432,
    ensures
        r.wf(),
        axis_feature_ok(r),
        r == (LorAxis {
            feature: LorFeature::TimeDifference,
            kind: AxisKind::Uniform { bins: nbins, lo: (-max) as i64, hi: max },
        }),
{
    LorAxis {
        feature: LorFeature::TimeDifference,
        kind: AxisKind::Uniform { bins: nbins, lo: -max, hi: max },
    }
}

/// Saturating increment of a count.
pub open spec fn spec_sat_inc(c: int) -> int {
    if c == usize::MAX {
        c
    } else {
        c + 1
    }
}

/// A histogram over one line-of-response axis.
pub struct Hist1D {
    pub axis: LorAxis,
    pub counts: Vec<usize>,
}

impl Hist1D {
    /// Well-formed: one count per addressable bin.
    pub open spec fn wf(self) -> bool {
        &&& self.axis.wf()
        &&& axis_feature_ok(self.axis)
        &&& self.counts@.len() == self.axis.spec_num_bins()
    }

    /// An empty histogram over `axis`.
    pub fn new(axis: LorAxis) -> (r: Hist1D)
        requires
            axis.wf(),
            axis_feature_ok(axis),
        ensures
            r.wf(),
            r.axis == axis,
            forall|v: int| 0 <= v < r.counts@.len() ==> r.counts@[v] == 0usize,
    {
        let n = axis.num_bins();
        let mut counts: Vec<usize> = Vec::new();
        let mut k: usize = 0;
        while k < n
            invariant
                k == counts@.len() <= n,
                forall|v: int| 0 <= v < k ==> counts@[v] == 0usize,
            decreases n - k,
        {
            counts.push(0);
            k = k + 1;
        }
        Hist1D { axis, counts }
    }
}

/// A histogram over two line-of-response axes.
pub struct Hist2D {
    pub ax0: LorAxis,
    pub ax1: LorAxis,
    pub counts: Vec<usize>,
}

impl Hist2D {
    /// Flat bin of a lor: first axis major.
    pub open spec fn spec_bin(self, lor: Lor) -> int {
        spec_axis_index(self.ax0, lor) * self.ax1.spec_num_bins() + spec_axis_index(self.ax1, lor)
    }

    /// Well-formed: one count per pair of addressable bins.
    pub open spec fn wf(self) -> bool {
        &&& self.ax0.wf()
        &&& self.ax1.wf()
        &&& axis_feature_ok(self.ax0)
        &&& axis_feature_ok(self.ax1)
        &&& self.counts@.len() == self.ax0.spec_num_bins() * self.ax1.spec_num_bins()
    }

    /// An empty histogram over the two axes.
    pub fn new(ax0: LorAxis, ax1: LorAxis) -> (r: Hist2D)
        requires
            ax0.wf(),
            ax1.wf(),
            axis_feature_ok(ax0),
            axis_feature_ok(ax1),
        ensures
            r.wf(),
            r.ax0 == ax0,
            r.ax1 == ax1,
            forall|v: int| 0 <= v < r.counts@.len() ==> r.counts@[v] == 0usize,
    {
        let n0 = ax0.num_bins();
        let n1 = ax1.num_bins();
        proof {
            assert(0 < n0 * n1 <= 4356) by (nonlinear_arith)
                requires
                    0 < n0 <= 66,
                    0 < n1 <= 66,
            ;
        }
        let n = n0 * n1;
        let mut counts: Vec<usize> = Vec::new();
        let mut k: usize = 0;
        while k < n
            invariant
                k == counts@.len() <= n,
                forall|v: int| 0 <= v < k ==> counts@[v] == 0usize,
            decreases n - k,
        {
            counts.push(0);
            k = k + 1;
        }
        Hist2D { ax0, ax1, counts }
    }
}

/// A read/fill interface shared by the lor histograms.
pub trait Exrogram {
    /// The structural invariant of the histogram.
    spec fn inv(&self) -> bool;

    /// The current counts.
    spec fn counts(&self) -> Seq<usize>;

    /// The bin a lor falls into.
    spec fn bin_of(&self, lor: Lor) -> int;

    /// Bins are always addressable.
    proof fn lemma_bin_in_range(&self, lor: Lor)
        requires
            self.inv(),
        ensures
            0 <= self.bin_of(lor) < self.counts().len(),
    ;

    /// Count one lor into its bin (saturating).
    fn fi11(&mut self, lor: &Lor)
        requires
            old(self).inv(),
            lor.wf(),
        ensures
            final (self).inv(),
            final (self).counts() == old(self).counts().update(
                old(self).bin_of(*lor),
                spec_sat_inc(old(self).counts()[old(self).bin_of(*lor)] as int) as usize,
            ),
            forall|l: Lor| #[trigger] final (self).bin_of(l) == old(self).bin_of(l),
    ;

    /// The count of the bin the lor falls into.
    fn ualue(&self, lor: &Lor) -> (r: usize)
        requires
            self.inv(),
            lor.wf(),
        ensures
            r == self.counts()[self.bin_of(*lor)],
    ;
}

impl Exrogram for Hist1D {
    open spec fn inv(&self) -> bool {
        self.wf()
    }

    open spec fn counts(&self) -> Seq<usize> {
        self.counts@
    }

    open spec fn bin_of(&self, lor: Lor) -> int {
        spec_axis_index(self.axis, lor)
    }

    proof fn lemma_bin_in_range(&self, lor: Lor) {
        lemma_axis_index_range(self.axis, lor);
    }

    fn fi11(&mut self, lor: &Lor) {
        let i = self.axis.index(lor);
        let c = self.counts[i];
        let nc: usize = if c == usize::MAX {
            c
        } else {
            c + 1
        };
        self.counts.set(i, nc);
    }

    fn ualue(&self, lor: &Lor) -> (r: usize) {
        proof {
            lemma_axis_index_range(self.axis, *lor);
        }
        let i = self.axis.index(lor);
        self.counts[i]
    }
}

impl Exrogram for Hist2D {
    open spec fn inv(&self) -> bool {
        self.wf()
    }

    open spec fn counts(&self) -> Seq<usize> {
        self.counts@
    }

    open spec fn bin_of(&self, lor: Lor) -> int {
        self.spec_bin(lor)
    }

    proof fn lemma_bin_in_range(&self, lor: Lor) {
        lemma_axis_index_range(self.ax0, lor);
        lemma_axis_index_range(self.ax1, lor);
        let i0 = spec_axis_index(self.ax0, lor);
        let i1 = spec_axis_index(self.ax1, lor);
        let n1 = self.ax1.spec_num_bins();
        assert(0 <= i0 * n1 + i1 < self.ax0.spec_num_bins() * n1) by (nonlinear_arith)
            requires
                0 <= i0 < self.ax0.spec_num_bins(),
                0 <= i1 < n1,
                0 < n1,
        ;
    }

    fn fi11(&mut self, lor: &Lor) {
        proof {
            self.lemma_bin_in_range(*lor);
        }
        let i0 = self.ax0.index(lor);
        let i1 = self.ax1.index(lor);
        let n1 = self.ax1.num_bins();
        proof {
            assert(i0 * n1 + i1 < self.counts@.len() && i0 * n1 >= 0 && i0 * n1 + i1 < 4356)
                by (nonlinear_arith)
                requires
                    0 <= i0 < self.ax0.spec_num_bins(),
                    0 <= i1 < n1,
                    0 < n1 <= 66,
                    i0 < 66,
                    self.counts@.len() == self.ax0.spec_num_bins() * n1,
            ;
        }
        let i = i0 * n1 + i1;
        let c = self.counts[i];
        let nc: usize = if c == usize::MAX {
            c
        } else {
            c + 1
        };
        self.counts.set(i, nc);
    }

    fn ualue(&self, lor: &Lor) -> (r: usize) {
        proof {
            self.lemma_bin_in_range(*lor);
        }
        let i0 = self.ax0.index(lor);
        let i1 = self.ax1.index(lor);
        let n1 = self.ax1.num_bins();
        proof {
            assert(i0 * n1 + i1 < self.counts@.len() && i0 * n1 >= 0 && i0 * n1 + i1 < 4356)
                by (nonlinear_arith)
                requires
                    0 <= i0 < self.ax0.spec_num_bins(),
                    0 <= i1 < n1,
                    0 < n1 <= 66,
                    i0 < 66,
                    self.counts@.len() == self.ax0.spec_num_bins() * n1,
            ;
        }
        let i = i0 * n1 + i1;
        self.counts[i]
    }
}

/// A lor from two endpoint triples, with zero time difference and the
/// default correction ratio of one.
pub fn mk_lor(pts: ((i64, i64, i64), (i64, i64, i64))) -> (r: Lor)
    requires
        -COORD_LIMIT <= pts.0.0 <= COORD_LIMIT,
        -COORD_LIMIT <= pts.0.1 <= COORD_LIMIT,
        -COORD_LIMIT <= pts.0.2 <= COORD_LIMIT,
        -COORD_LIMIT <= pts.1.0 <= COORD_LIMIT,
        -COORD_LIMIT <= pts.1.1 <= COORD_LIMIT,
        -COORD_LIMIT <= pts.1.2 <= COORD_LIMIT,
    ensures
        r.wf(),
        r.p1 == (crate::fov::V3 { x: pts.0.0, y: pts.0.1, z: pts.0.2 }),
        r.p2 == (crate::fov::V3 { x: pts.1.0, y: pts.1.1, z: pts.1.2 }),
        r.t1 == 0 && r.t2 == 0,
        r.additive_correction == FIXED_ONE,
{
    let ((x1, y1, z1), (x2, y2, z2)) = pts;
    Lor {
        p1: crate::fov::V3 { x: x1, y: y1, z: z1 },
        p2: crate::fov::V3 { x: x2, y: y2, z: z2 },
        t1: 0,
        t2: 0,
        additive_correction: FIXED_ONE,
    }
}


/// The flat bin of a lor in the five-axis layout, azimuth major, then
/// axial midpoint, axial difference, radial distance, time difference.
pub open spec fn spec_flat5(sg: Scattergram, lor: Lor) -> int {
    let ip = spec_axis_index(sg.phi, lor);
    let iz = spec_axis_index(sg.z, lor);
    let idz = spec_axis_index(sg.dz, lor);
    let ir = spec_axis_index(sg.r, lor);
    let it = spec_axis_index(sg.t, lor);
    (((ip * sg.z.spec_num_bins() + iz) * sg.dz.spec_num_bins() + idz) * sg.r.spec_num_bins() + ir)
        * sg.t.spec_num_bins() + it
}

/// A pair of five-axis histograms ("trues" and "scatters") sharing one
/// axis layout.  Built during a scatter-estimation pass, then queried
/// read-only for the per-event correction ratio `(scatters + trues) /
/// trues`.
pub struct Scattergram {
    pub phi: LorAxis,
    pub z: LorAxis,
    pub dz: LorAxis,
    pub r: LorAxis,
    pub t: LorAxis,
    pub trues: Vec<u64>,
    pub scatters: Vec<u64>,
}

impl Scattergram {
    /// Well-formed: five well-formed axes and one count per flat bin in
    /// both histograms.
    pub open spec fn wf(self) -> bool {
        &&& self.phi.wf() && axis_feature_ok(self.phi)
        &&& self.z.wf() && axis_feature_ok(self.z)
        &&& self.dz.wf() && axis_feature_ok(self.dz)
        &&& self.r.wf() && axis_feature_ok(self.r)
        &&& self.t.wf() && axis_feature_ok(self.t)
        &&& self.trues@.len() == (((self.phi.spec_num_bins() * self.z.spec_num_bins())
            * self.dz.spec_num_bins()) * self.r.spec_num_bins()) * self.t.spec_num_bins()
        &&& self.scatters@.len() == self.trues@.len()
    }

    /// The flat bin is always addressable.
    pub proof fn lemma_flat5_range(self, lor: Lor)
        requires
            self.wf(),
        ensures
            0 <= spec_flat5(self, lor) < self.trues@.len(),
    {
        lemma_axis_index_range(self.phi, lor);
        lemma_axis_index_range(self.z, lor);
        lemma_axis_index_range(self.dz, lor);
        lemma_axis_index_range(self.r, lor);
        lemma_axis_index_range(self.t, lor);
        let ip = spec_axis_index(self.phi, lor);
        let iz = spec_axis_index(self.z, lor);
        let idz = spec_axis_index(self.dz, lor);
        let ir = spec_axis_index(self.r, lor);
        let it = spec_axis_index(self.t, lor);
        let np = self.phi.spec_num_bins();
        let nz = self.z.spec_num_bins();
        let ndz = self.dz.spec_num_bins();
        let nr = self.r.spec_num_bins();
        let nt = self.t.spec_num_bins();
        assert(0 <= ip * nz + iz < np * nz && np * nz <= 4356) by (nonlinear_arith)
            requires
                0 <= ip < np <= 66,
                0 <= iz < nz,
                0 < nz <= 66,
        ;
        assert(0 <= (ip * nz + iz) * ndz + idz < (np * nz) * ndz && (np * nz) * ndz <= 287496)
            by (nonlinear_arith)
            requires
                0 <= ip * nz + iz < np * nz <= 4356,
                0 <= idz < ndz,
                0 < ndz <= 66,
        ;
        assert(0 <= ((ip * nz + iz) * ndz + idz) * nr + ir < ((np * nz) * ndz) * nr && ((np * nz)
            * ndz) * nr <= 18974736) by (nonlinear_arith)
            requires
                0 <= (ip * nz + iz) * ndz + idz < (np * nz) * ndz <= 287496,
                0 <= ir < nr,
                0 < nr <= 66,
        ;
        assert(0 <= (((ip * nz + iz) * ndz + idz) * nr + ir) * nt + it < (((np * nz) * ndz) * nr)
            * nt && (((np * nz) * ndz) * nr) * nt <= 1252332576) by (nonlinear_arith)
            requires
                0 <= ((ip * nz + iz) * ndz + idz) * nr + ir < ((np * nz) * ndz) * nr <= 18974736,
                0 <= it < nt,
                0 < nt <= 66,
        ;
    }

    /// The flat bin of a lor, exactly [`spec_flat5`].
    fn flat5(&self, lor: &Lor) -> (v: usize)
        requires
            self.wf(),
            lor.wf(),
        ensures
            v == spec_flat5(*self, *lor),
            v < self.trues@.len(),
    {
        proof {
            self.lemma_flat5_range(*lor);
        }
        let ip = self.phi.index(lor);
        let iz = self.z.index(lor);
        let idz = self.dz.index(lor);
        let ir = self.r.index(lor);
        let it = self.t.index(lor);
        let nz = self.z.num_bins();
        let ndz = self.dz.num_bins();
        let nr = self.r.num_bins();
        let nt = self.t.num_bins();
        proof {
            assert(0 <= ip * nz + iz < 4356) by (nonlinear_arith)
                requires
                    0 <= ip < 66,
                    0 <= iz < nz,
                    0 < nz <= 66,
            ;
        }
        let a = ip * nz + iz;
        proof {
            assert(0 <= a * ndz + idz < 287496) by (nonlinear_arith)
                requires
                    0 <= a < 4356,
                    0 <= idz < ndz,
                    0 < ndz <= 66,
            ;
        }
        let b = a * ndz + idz;
        proof {
            assert(0 <= b * nr + ir < 18974736) by (nonlinear_arith)
                requires
                    0 <= b < 287496,
                    0 <= ir < nr,
                    0 < nr <= 66,
            ;
        }
        let c = b * nr + ir;
        proof {
            assert(0 <= c * nt + it < 1252332576) by (nonlinear_arith)
                requires
                    0 <= c < 18974736,
                    0 <= it < nt,
                    0 < nt <= 66,
            ;
        }
        c * nt + it
    }

    /// A scattergram with the given axis granularities: azimuth bins, an
    /// axial range of length `len_z` centred on the origin, an axial
    /// difference range `[0, len_dz)`, a radial range `[0, max_r)` and a
    /// time-difference range `[-max_dt, max_dt)`.  Both histograms start
    /// empty.
    pub fn new(
        bins_phi: usize,
        bins_z: usize,
        len_z: i64,
        bins_dz: usize,
        len_dz: i64,
        bins_r: usize,
        max_r: i64,
        bins_dt: usize,
        max_dt: i64,
    ) -> (r: Scattergram)
        requires
            0 < bins_phi <= BIN_LIMIT,
            0 < bins_z <= BIN_LIMIT,
            0 < bins_dz <= BIN_LIMIT,
            0 < bins_r <= BIN_LIMIT,
            0 < bins_dt <= BIN_LIMIT,
            2 <= len_z <= 2 * COORD_LIMIT,
            0 < len_dz <= FEATURE_LIMIT,
            0 < max_r <= FEATURE_LIMIT,
            0 < max_dt <= 33554432,
        ensures
            r.wf(),
            r.phi == (LorAxis { feature: LorFeature::Azimuth, kind: AxisKind::Cyclic { bins: bins_phi } }),
            r.z == (LorAxis {
                feature: LorFeature::AxialMidpoint,
                kind: AxisKind::Uniform {
                    bins: bins_z,
                    lo: (2 * (-(len_z / 2))) as i64,
                    hi: (2 * (len_z / 2)) as i64,
                },
            }),
            r.dz == (LorAxis {
                feature: LorFeature::AxialDifference,
                kind: AxisKind::Uniform { bins: bins_dz, lo: 0, hi: len_dz },
            }),
            r.r == (LorAxis {
                feature: LorFeature::RadialDistance,
                kind: AxisKind::Uniform { bins: bins_r, lo: 0, hi: max_r },
            }),
            r.t == (LorAxis {
                feature: LorFeature::TimeDifference,
                kind: AxisKind::Uniform { bins: bins_dt, lo: (-max_dt) as i64, hi: max_dt },
            }),
            forall|v: int| 0 <= v < r.trues@.len() ==> r.trues@[v] == 0u64,
            forall|v: int| 0 <= v < r.scatters@.len() ==> r.scatters@[v] == 0u64,
    {
        let max_z = len_z / 2;
        let phi = axis_phi(bins_phi);
        let z = axis_z(bins_z, -max_z, max_z);
        let dz = axis_dz(bins_dz, len_dz);
        let rr = axis_r(bins_r, max_r);
        let t = axis_t(bins_dt, max_dt);
        let np = phi.num_bins();
        let nz = z.num_bins();
        let ndz = dz.num_bins();
        let nr = rr.num_bins();
        let nt = t.num_bins();
        proof {
            assert(0 < np * nz <= 4356) by (nonlinear_arith)
                requires
                    0 < np <= 66,
                    0 < nz <= 66,
            ;
            assert(0 < (np * nz) * ndz <= 287496) by (nonlinear_arith)
                requires
                    0 < np * nz <= 4356,
                    0 < ndz <= 66,
            ;
            assert(0 < ((np * nz) * ndz) * nr <= 18974736) by (nonlinear_arith)
                requires
                    0 < (np * nz) * ndz <= 287496,
                    0 < nr <= 66,
            ;
            assert(0 < (((np * nz) * ndz) * nr) * nt <= 1252332576) by (nonlinear_arith)
                requires
                    0 < ((np * nz) * ndz) * nr <= 18974736,
                    0 < nt <= 66,
            ;
        }
        let total = ((np * nz) * ndz * nr) * nt;
        proof {
            assert(((np * nz) * ndz * nr) * nt == (((np * nz) * ndz) * nr) * nt);
        }
        let mut trues: Vec<u64> = Vec::new();
        let mut k: usize = 0;
        while k < total
            invariant
                k == trues@.len() <= total,
                forall|v: int| 0 <= v < k ==> trues@[v] == 0u64,
            decreases total - k,
        {
            trues.push(0);
            k = k + 1;
        }
        let mut scatters: Vec<u64> = Vec::new();
        let mut k2: usize = 0;
        while k2 < total
            invariant
                k2 == scatters@.len() <= total,
                forall|v: int| 0 <= v < k2 ==> scatters@[v] == 0u64,
            decreases total - k2,
        {
            scatters.push(0);
            k2 = k2 + 1;
        }
        Scattergram { phi, z, dz, r: rr, t, trues, scatters }
    }

    /// Saturating increment on a count.
    fn bump(c: u64) -> (r: u64)
        ensures
            r as int == (if c == u64::MAX {
                c as int
            } else {
                c as int + 1
            }),
    {
        if c == u64::MAX {
            c
        } else {
            c + 1
        }
    }

    /// Count one prompt into the histogram of its kind.  A random prompt
    /// is unsupported: it fails fast with an error and changes nothing.
    pub fn fill(&mut self, kind: Prompt, lor: &Lor) -> (res: Result<(), Error>)
        requires
            old(self).wf(),
            lor.wf(),
        ensures
            final (self).wf(),
            final (self).phi == old(self).phi && final (self).z == old(self).z && final (self).dz
                == old(self).dz && final (self).r == old(self).r && final (self).t == old(self).t,
            match kind {
                Prompt::True => {
                    &&& res == Result::<(), Error>::Ok(())
                    &&& final (self).scatters@ == old(self).scatters@
                    &&& final (self).trues@ == old(self).trues@.update(
                        spec_flat5(*old(self), *lor),
                        (if old(self).trues@[spec_flat5(*old(self), *lor)] == u64::MAX {
                            old(self).trues@[spec_flat5(*old(self), *lor)] as int
                        } else {
                            old(self).trues@[spec_flat5(*old(self), *lor)] as int + 1
                        }) as u64,
                    )
                },
                Prompt::Scatter => {
                    &&& res == Result::<(), Error>::Ok(())
                    &&& final (self).trues@ == old(self).trues@
                    &&& final (self).scatters@ == old(self).scatters@.update(
                        spec_flat5(*old(self), *lor),
                        (if old(self).scatters@[spec_flat5(*old(self), *lor)] == u64::MAX {
                            old(self).scatters@[spec_flat5(*old(self), *lor)] as int
                        } else {
                            old(self).scatters@[spec_flat5(*old(self), *lor)] as int + 1
                        }) as u64,
                    )
                },
                Prompt::Random => res == Result::<(), Error>::Err(Error::RandomPromptUnsupported)
                    && *final (self) == *old(self),
            },
    {
        match kind {
            Prompt::True => {
                let v = self.flat5(lor);
                let c = self.trues[v];
                let nc = Self::bump(c);
                self.trues.set(v, nc);
                Ok(())
            },
            Prompt::Scatter => {
                let v = self.flat5(lor);
                let c = self.scatters[v];
                let nc = Self::bump(c);
                self.scatters.set(v, nc);
                Ok(())
            },
            Prompt::Random => Err(Error::RandomPromptUnsupported),
        }
    }

    /// The multiplicative contribution of scatters to trues in the bin of
    /// `lor`: `(scatters + trues) / trues` as a fixed-point ratio.  A bin
    /// with no evidence of either gives exactly one; a bin with scatters
    /// but no trues gives the maximum-distrust sentinel `u64::MAX` rather
    /// than dividing by zero.
    pub fn value(&self, lor: &Lor) -> (r: u64)
        requires
            self.wf(),
            lor.wf(),
        ensures
            ({
                let t = self.trues@[spec_flat5(*self, *lor)] as int;
                let s = self.scatters@[spec_flat5(*self, *lor)] as int;
                &&& (t == 0 && s == 0 ==> r == FIXED_ONE)
                &&& (t == 0 && s > 0 ==> r == u64::MAX)
                &&& (t > 0 ==> r as int == (if ((s + t) * FIXED_ONE) / t > u64::MAX {
                    u64::MAX as int
                } else {
                    ((s + t) * FIXED_ONE) / t
                }))
            }),
    {
        let v = self.flat5(lor);
        let t = self.trues[v];
        let s = self.scatters[v];
        if t == 0 {
            if s == 0 {
                FIXED_ONE
            } else {
                u64::MAX
            }
        } else {
            proof {
                crate::frac::lemma_mul_bound(
                    s as int + t as int,
                    FIXED_ONE as int,
                    36893488147419103230,
                    FIXED_ONE as int,
                );
                vstd::arithmetic::div_mod::lemma_div_pos_is_pos(
                    (s as int + t as int) * FIXED_ONE,
                    t as int,
                );
            }
            let num: u128 = (s as u128 + t as u128) * (FIXED_ONE as u128);
            let q: u128 = num / (t as u128);
            if q > u64::MAX as u128 {
                u64::MAX
            } else {
                q as u64
            }
        }
    }

    /// The correction ratio together with the raw true and scatter counts
    /// of the bin.  The ratio follows the same zero-trues rule as
    /// [`Scattergram::value`]: one on a bin with no evidence of either,
    /// the maximum-distrust sentinel on a bin with scatters but no trues.
    pub fn triplet(&self, lor: &Lor) -> (r: (u64, u64, u64))
        requires
            self.wf(),
            lor.wf(),
        ensures
            ({
                let t = self.trues@[spec_flat5(*self, *lor)] as int;
                let s = self.scatters@[spec_flat5(*self, *lor)] as int;
                &&& r.1 == t
                &&& r.2 == s
                &&& (t == 0 && s == 0 ==> r.0 == FIXED_ONE)
                &&& (t == 0 && s > 0 ==> r.0 == u64::MAX)
                &&& (t > 0 ==> r.0 as int == (if ((s + t) * FIXED_ONE) / t > u64::MAX {
                    u64::MAX as int
                } else {
                    ((s + t) * FIXED_ONE) / t
                }))
            }),
    {
        let v = self.flat5(lor);
        let t = self.trues[v];
        let s = self.scatters[v];
        if t == 0 {
            if s == 0 {
                (FIXED_ONE, t, s)
            } else {
                (u64::MAX, t, s)
            }
        } else {
            proof {
                crate::frac::lemma_mul_bound(
                    s as int + t as int,
                    FIXED_ONE as int,
                    36893488147419103230,
                    FIXED_ONE as int,
                );
                vstd::arithmetic::div_mod::lemma_div_pos_is_pos(
                    (s as int + t as int) * FIXED_ONE,
                    t as int,
                );
            }
            let num: u128 = (s as u128 + t as u128) * (FIXED_ONE as u128);
            let q: u128 = num / (t as u128);
            let ratio = if q > u64::MAX as u128 {
                u64::MAX
            } else {
                q as u64
            };
            (ratio, t, s)
        }
    }
}

/// A single-feature lookup table from lines of response to counts.
pub trait Lorogram {
    /// The structural invariant.
    spec fn inv(&self) -> bool;

    /// The current counts.
    spec fn counts(&self) -> Seq<usize>;

    /// The bin a lor falls into.
    spec fn bin_of(&self, lor: Lor) -> int;

    /// Bins are always addressable.
    proof fn lemma_bin_in_range(&self, lor: Lor)
        requires
            self.inv(),
        ensures
            0 <= self.bin_of(lor) < self.counts().len(),
    ;

    /// Count one lor into its bin (saturating).
    fn fill(&mut self, lor: &Lor)
        requires
            old(self).inv(),
            lor.wf(),
        ensures
            final (self).inv(),
            final (self).counts() == old(self).counts().update(
                old(self).bin_of(*lor),
                spec_sat_inc(old(self).counts()[old(self).bin_of(*lor)] as int) as usize,
            ),
            forall|l: Lor| #[trigger] final (self).bin_of(l) == old(self).bin_of(l),
    ;

    /// The count of the bin the lor falls into.
    fn value(&self, lor: &Lor) -> (r: usize)
        requires
            self.inv(),
            lor.wf(),
        ensures
            r == self.counts()[self.bin_of(*lor)],
    ;
}

/// Histogram of the axial midpoint alone.
pub struct JustZ {
    pub histogram: Hist1D,
}

impl JustZ {
    /// An empty table over an axial extent of length `l` centred on the
    /// origin.
    pub fn new(l: i64, nbins: usize) -> (r: JustZ)
        requires
            2 <= l <= 2 * COORD_LIMIT,
            0 < nbins <= BIN_LIMIT,
        ensures
            r.inv(),
            r.histogram.axis == axis_z_spec(nbins, (-(l / 2)) as i64, (l / 2) as i64),
            forall|v: int| 0 <= v < r.histogram.counts@.len() ==> r.histogram.counts@[v] == 0usize,
    {
        let half = l / 2;
        JustZ { histogram: Hist1D::new(axis_z(nbins, -half, half)) }
    }
}

/// The axis [`axis_z`] builds.
pub open spec fn axis_z_spec(nbins: usize, min: i64, max: i64) -> LorAxis {
    LorAxis {
        feature: LorFeature::AxialMidpoint,
        kind: AxisKind::Uniform { bins: nbins, lo: (2 * min) as i64, hi: (2 * max) as i64 },
    }
}

impl Lorogram for JustZ {
    open spec fn inv(&self) -> bool {
        self.histogram.wf()
    }

    open spec fn counts(&self) -> Seq<usize> {
        self.histogram.counts@
    }

    open spec fn bin_of(&self, lor: Lor) -> int {
        spec_axis_index(self.histogram.axis, lor)
    }

    proof fn lemma_bin_in_range(&self, lor: Lor) {
        lemma_axis_index_range(self.histogram.axis, lor);
    }

    fn fill(&mut self, lor: &Lor) {
        self.histogram.fi11(lor);
        proof {
            assert forall|l: Lor| #[trigger] self.bin_of(l) == old(self).bin_of(l) by {
                assert(self.histogram.bin_of(l) == old(self).histogram.bin_of(l));
            }
        }
    }

    fn value(&self, lor: &Lor) -> (r: usize) {
        self.histogram.ualue(lor)
    }
}

/// Histogram of the radial distance alone.
pub struct JustR {
    pub histogram: Hist1D,
}

impl JustR {
    /// An empty table over radial distances in `[0, r)`.
    pub fn new(r: i64, nbins: usize) -> (res: JustR)
        requires
            0 < r <= FEATURE_LIMIT,
            0 < nbins <= BIN_LIMIT,
        ensures
            res.inv(),
            forall|v: int|
                0 <= v < res.histogram.counts@.len() ==> res.histogram.counts@[v] == 0usize,
    {
        JustR { histogram: Hist1D::new(axis_r(nbins, r)) }
    }
}

impl Lorogram for JustR {
    open spec fn inv(&self) -> bool {
        self.histogram.wf()
    }

    open spec fn counts(&self) -> Seq<usize> {
        self.histogram.counts@
    }

    open spec fn bin_of(&self, lor: Lor) -> int {
        spec_axis_index(self.histogram.axis, lor)
    }

    proof fn lemma_bin_in_range(&self, lor: Lor) {
        lemma_axis_index_range(self.histogram.axis, lor);
    }

    fn fill(&mut self, lor: &Lor) {
        self.histogram.fi11(lor);
        proof {
            assert forall|l: Lor| #[trigger] self.bin_of(l) == old(self).bin_of(l) by {
                assert(self.histogram.bin_of(l) == old(self).histogram.bin_of(l));
            }
        }
    }

    fn value(&self, lor: &Lor) -> (r: usize) {
        self.histogram.ualue(lor)
    }
}

/// Histogram of the azimuth alone.
pub struct JustPhi {
    pub histogram: Hist1D,
}

impl JustPhi {
    /// An empty cyclic table over the azimuth.
    pub fn new(nbins: usize) -> (r: JustPhi)
        requires
            0 < nbins <= BIN_LIMIT,
        ensures
            r.inv(),
            forall|v: int| 0 <= v < r.histogram.counts@.len() ==> r.histogram.counts@[v] == 0usize,
    {
        JustPhi { histogram: Hist1D::new(axis_phi(nbins)) }
    }
}

impl Lorogram for JustPhi {
    open spec fn inv(&self) -> bool {
        self.histogram.wf()
    }

    open spec fn counts(&self) -> Seq<usize> {
        self.histogram.counts@
    }

    open spec fn bin_of(&self, lor: Lor) -> int {
        spec_axis_index(self.histogram.axis, lor)
    }

    proof fn lemma_bin_in_range(&self, lor: Lor) {
        lemma_axis_index_range(self.histogram.axis, lor);
    }

    fn fill(&mut self, lor: &Lor) {
        self.histogram.fi11(lor);
        proof {
            assert forall|l: Lor| #[trigger] self.bin_of(l) == old(self).bin_of(l) by {
                assert(self.histogram.bin_of(l) == old(self).histogram.bin_of(l));
            }
        }
    }

    fn value(&self, lor: &Lor) -> (r: usize) {
        self.histogram.ualue(lor)
    }
}

/// Histogram of the axial difference alone.
pub struct JustDeltaZ {
    pub histogram: Hist1D,
}

impl JustDeltaZ {
    /// An empty table over axial differences in `[0, dz_max)`.
    pub fn new(dz_max: i64, nbins: usize) -> (r: JustDeltaZ)
        requires
            0 < dz_max <= FEATURE_LIMIT,
            0 < nbins <= BIN_LIMIT,
        ensures
            r.inv(),
            forall|v: int| 0 <= v < r.histogram.counts@.len() ==> r.histogram.counts@[v] == 0usize,
    {
        JustDeltaZ { histogram: Hist1D::new(axis_dz(nbins, dz_max)) }
    }
}

impl Lorogram for JustDeltaZ {
    open spec fn inv(&self) -> bool {
        self.histogram.wf()
    }

    open spec fn counts(&self) -> Seq<usize> {
        self.histogram.counts@
    }

    open spec fn bin_of(&self, lor: Lor) -> int {
        spec_axis_index(self.histogram.axis, lor)
    }

    proof fn lemma_bin_in_range(&self, lor: Lor) {
        lemma_axis_index_range(self.histogram.axis, lor);
    }

    fn fill(&mut self, lor: &Lor) {
        self.histogram.fi11(lor);
        proof {
            assert forall|l: Lor| #[trigger] self.bin_of(l) == old(self).bin_of(l) by {
                assert(self.histogram.bin_of(l) == old(self).histogram.bin_of(l));
            }
        }
    }

    fn value(&self, lor: &Lor) -> (r: usize) {
        self.histogram.ualue(lor)
    }
}

/// Joint histogram of the axial midpoint and the axial difference.
pub struct ZAndDeltaZ {
    pub histogram: Hist2D,
}

impl ZAndDeltaZ {
    /// An empty joint table: midpoints over an axial extent of length `l`
    /// centred on the origin, differences over `[0, dz_max)`.
    pub fn new(l: i64, nbins_z: usize, dz_max: i64, nbins_dz: usize) -> (r: ZAndDeltaZ)
        requires
            2 <= l <= 2 * COORD_LIMIT,
            0 < dz_max <= FEATURE_LIMIT,
            0 < nbins_z <= BIN_LIMIT,
            0 < nbins_dz <= BIN_LIMIT,
        ensures
            r.inv(),
            forall|v: int| 0 <= v < r.histogram.counts@.len() ==> r.histogram.counts@[v] == 0usize,
    {
        let half = l / 2;
        ZAndDeltaZ { histogram: Hist2D::new(axis_z(nbins_z, -half, half), axis_dz(nbins_dz, dz_max)) }
    }
}

impl Lorogram for ZAndDeltaZ {
    open spec fn inv(&self) -> bool {
        self.histogram.wf()
    }

    open spec fn counts(&self) -> Seq<usize> {
        self.histogram.counts@
    }

    open spec fn bin_of(&self, lor: Lor) -> int {
        self.histogram.spec_bin(lor)
    }

    proof fn lemma_bin_in_range(&self, lor: Lor) {
        self.histogram.lemma_bin_in_range(lor);
    }

    fn fill(&mut self, lor: &Lor) {
        self.histogram.fi11(lor);
        proof {
            assert forall|l: Lor| #[trigger] self.bin_of(l) == old(self).bin_of(l) by {
                assert(self.histogram.bin_of(l) == old(self).histogram.bin_of(l));
            }
        }
    }

    fn value(&self, lor: &Lor) -> (r: usize) {
        self.histogram.ualue(lor)
    }
}

} // verus!
