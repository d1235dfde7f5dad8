//! The Siddon ray tracer: exact ray-voxel traversal.
//!
//! The segment is walked from its entry parameter to its exit parameter,
//! advancing at each step along whichever axis crosses its next voxel
//! boundary first (ties resolved `x` before `y` before `z`), and recording
//! for each traversed voxel the exact parameter interval spent inside it.
//! All parameters are exact rationals, so the recorded row satisfies the
//! full geometric contract [`row_valid`].

use vstd::prelude::*;

use crate::fov::{in_slab, slab_index_exec, COORD_LIMIT, FOV, N_LIMIT};
use crate::frac::{
    frac_lt, frac_max, frac_min, frac_one, frac_zero, lemma_mul_bound, lemma_rle_trans,
    lemma_rlt_rle_trans, rat_one, rat_zero, rle, rlt, Frac, Rat, FRAC_BOUND,
};
use crate::lor::Lor;
use crate::system_matrix::{
    alpha_in, alpha_out, axis_den, axis_entry, axis_exit, axis_in_slab_at, crossing, crossing_num,
    entry_in_voxel, ge_plane, le_plane, lor_nondegenerate, row_valid, step_adjacent, vox_step,
    RowEntry, SystemMatrixRow,
};

verus! {

/// The Siddon projector strategy.
pub struct Siddon;

// ---------------------------------------------------------------------------
// Exec helpers for crossing parameters
// ---------------------------------------------------------------------------
/// The numerator of the crossing parameter of plane `k`, exactly
/// [`crossing_num`].
fn crossing_num_exec(p: i64, d: i64, hw: i64, n: i64, k: i64) -> (r: i64)
    requires
        -COORD_LIMIT <= p <= COORD_LIMIT,
        0 < hw <= COORD_LIMIT,
        0 < n <= N_LIMIT,
        0 <= k <= n,
        d != 0,
    ensures
        r == crossing_num(p as int, d as int, hw as int, n as int, k as int),
        -FRAC_BOUND <= r <= FRAC_BOUND,
{
    proof {
        lemma_mul_bound(hw as int, 2 * k - n, COORD_LIMIT as int, 1024);
        lemma_mul_bound(n as int, p as int, 1024, COORD_LIMIT as int);
    }
    if d > 0 {
        hw * (2 * k - n) - n * p
    } else {
        n * p - hw * (2 * k - n)
    }
}

/// The (positive) denominator shared by all crossing parameters of one axis.
fn axis_den_exec(d: i64, n: i64) -> (r: i64)
    requires
        d != 0,
        -2 * COORD_LIMIT <= d <= 2 * COORD_LIMIT,
        0 < n <= N_LIMIT,
    ensures
        r == axis_den(d as int, n as int),
        0 < r <= FRAC_BOUND,
{
    proof {
        assert(d > 0 ==> 0 < n * d <= 1024 * (2 * COORD_LIMIT)) by (nonlinear_arith)
            requires
                0 < n <= 1024,
                d <= 2 * COORD_LIMIT,
        ;
        assert(d < 0 ==> 0 < n * (-d) <= 1024 * (2 * COORD_LIMIT)) by (nonlinear_arith)
            requires
                0 < n <= 1024,
                -2 * COORD_LIMIT <= d,
        ;
    }
    if d > 0 {
        n * d
    } else {
        n * (-d)
    }
}

/// The crossing parameter of plane `k` as an exec fraction.
fn crossing_exec(p: i64, d: i64, hw: i64, n: i64, k: i64) -> (r: Frac)
    requires
        -COORD_LIMIT <= p <= COORD_LIMIT,
        0 < hw <= COORD_LIMIT,
        0 < n <= N_LIMIT,
        0 <= k <= n,
        d != 0,
        -2 * COORD_LIMIT <= d <= 2 * COORD_LIMIT,
    ensures
        r.wf(),
        r.rat() == crossing(p as int, d as int, hw as int, n as int, k as int),
{
    Frac { num: crossing_num_exec(p, d, hw, n, k), den: axis_den_exec(d, n) }
}

/// The clipped entry parameter of the whole segment, with the per-axis
/// ordering facts every caller needs.
fn alpha_in_exec(fov: &FOV, lor: &Lor) -> (r: Frac)
    requires
        fov.wf(),
        lor.wf(),
    ensures
        r.wf(),
        r.rat() == alpha_in(*fov, *lor),
        rle(rat_zero(), r.rat()),
        lor.p2.x != lor.p1.x ==> rle(
            axis_entry(
                lor.p1.x as int,
                lor.p2.x - lor.p1.x,
                fov.half_width.x as int,
                fov.n.x as int,
            ),
            r.rat(),
        ),
        lor.p2.y != lor.p1.y ==> rle(
            axis_entry(
                lor.p1.y as int,
                lor.p2.y - lor.p1.y,
                fov.half_width.y as int,
                fov.n.y as int,
            ),
            r.rat(),
        ),
        lor.p2.z != lor.p1.z ==> rle(
            axis_entry(
                lor.p1.z as int,
                lor.p2.z - lor.p1.z,
                fov.half_width.z as int,
                fov.n.z as int,
            ),
            r.rat(),
        ),
{
    let dx = lor.p2.x - lor.p1.x;
    let dy = lor.p2.y - lor.p1.y;
    let dz = lor.p2.z - lor.p1.z;
    let ex = if dx != 0 {
        crossing_exec(lor.p1.x, dx, fov.half_width.x, fov.n.x as i64, 0)
    } else {
        frac_zero()
    };
    let ey = if dy != 0 {
        crossing_exec(lor.p1.y, dy, fov.half_width.y, fov.n.y as i64, 0)
    } else {
        frac_zero()
    };
    let ez = if dz != 0 {
        crossing_exec(lor.p1.z, dz, fov.half_width.z, fov.n.z as i64, 0)
    } else {
        frac_zero()
    };
    // For a negative direction the entry plane is plane `n`, not plane `0`.
    let ex = if dx < 0 {
        crossing_exec(lor.p1.x, dx, fov.half_width.x, fov.n.x as i64, fov.n.x as i64)
    } else {
        ex
    };
    let ey = if dy < 0 {
        crossing_exec(lor.p1.y, dy, fov.half_width.y, fov.n.y as i64, fov.n.y as i64)
    } else {
        ey
    };
    let ez = if dz < 0 {
        crossing_exec(lor.p1.z, dz, fov.half_width.z, fov.n.z as i64, fov.n.z as i64)
    } else {
        ez
    };
    let m0 = frac_zero();
    let m1 = frac_max(m0, ex);
    let m2 = frac_max(m1, ey);
    let m3 = frac_max(m2, ez);
    proof {
        lemma_rle_trans(ex.rat(), m1.rat(), m2.rat());
        lemma_rle_trans(ex.rat(), m2.rat(), m3.rat());
        lemma_rle_trans(ey.rat(), m2.rat(), m3.rat());
        lemma_rle_trans(rat_zero(), m1.rat(), m2.rat());
        lemma_rle_trans(rat_zero(), m2.rat(), m3.rat());
    }
    m3
}

/// The clipped exit parameter of the whole segment, with the per-axis
/// ordering facts every caller needs.
fn alpha_out_exec(fov: &FOV, lor: &Lor) -> (r: Frac)
    requires
        fov.wf(),
        lor.wf(),
    ensures
        r.wf(),
        r.rat() == alpha_out(*fov, *lor),
        rle(r.rat(), rat_one()),
        lor.p2.x != lor.p1.x ==> rle(
            r.rat(),
            axis_exit(
                lor.p1.x as int,
                lor.p2.x - lor.p1.x,
                fov.half_width.x as int,
                fov.n.x as int,
            ),
        ),
        lor.p2.y != lor.p1.y ==> rle(
            r.rat(),
            axis_exit(
                lor.p1.y as int,
                lor.p2.y - lor.p1.y,
                fov.half_width.y as int,
                fov.n.y as int,
            ),
        ),
        lor.p2.z != lor.p1.z ==> rle(
            r.rat(),
            axis_exit(
                lor.p1.z as int,
                lor.p2.z - lor.p1.z,
                fov.half_width.z as int,
                fov.n.z as int,
            ),
        ),
{
    let dx = lor.p2.x - lor.p1.x;
    let dy = lor.p2.y - lor.p1.y;
    let dz = lor.p2.z - lor.p1.z;
    let ex = if dx > 0 {
        crossing_exec(lor.p1.x, dx, fov.half_width.x, fov.n.x as i64, fov.n.x as i64)
    } else if dx < 0 {
        crossing_exec(lor.p1.x, dx, fov.half_width.x, fov.n.x as i64, 0)
    } else {
        frac_one()
    };
    let ey = if dy > 0 {
        crossing_exec(lor.p1.y, dy, fov.half_width.y, fov.n.y as i64, fov.n.y as i64)
    } else if dy < 0 {
        crossing_exec(lor.p1.y, dy, fov.half_width.y, fov.n.y as i64, 0)
    } else {
        frac_one()
    };
    let ez = if dz > 0 {
        crossing_exec(lor.p1.z, dz, fov.half_width.z, fov.n.z as i64, fov.n.z as i64)
    } else if dz < 0 {
        crossing_exec(lor.p1.z, dz, fov.half_width.z, fov.n.z as i64, 0)
    } else {
        frac_one()
    };
    let m0 = frac_one();
    let m1 = frac_min(m0, ex);
    let m2 = frac_min(m1, ey);
    let m3 = frac_min(m2, ez);
    proof {
        lemma_rle_trans(m3.rat(), m2.rat(), m1.rat());
        lemma_rle_trans(m3.rat(), m1.rat(), ex.rat());
        lemma_rle_trans(m3.rat(), m2.rat(), ey.rat());
        lemma_rle_trans(m3.rat(), m1.rat(), rat_one());
    }
    m3
}

// ---------------------------------------------------------------------------
// Geometric lemmas
// ---------------------------------------------------------------------------
// The nonlinear kernels below are phrased over raw integers, with plane
// coefficients passed in as single variables, so that each solver query
// stays small; the spec-level geometry is recovered by unfolding outside.

/// Cancel a positive common factor from a non-strict product inequality.
proof fn kernel_cancel_le(x: int, y: int, m: int)
    by (nonlinear_arith)
    requires
        x * m <= y * m,
        m > 0,
    ensures
        x <= y,
{
}

/// Cancel a positive common factor from a strict product inequality.
proof fn kernel_cancel_lt(x: int, y: int, m: int)
    by (nonlinear_arith)
    requires
        x * m < y * m,
        m > 0,
    ensures
        x < y,
{
}

/// Cancel a positive common factor on the left of a strict product
/// inequality.
proof fn kernel_cancel_lt_left(x: int, y: int, m: int)
    by (nonlinear_arith)
    requires
        m * x < m * y,
        m > 0,
    ensures
        x < y,
{
}

/// A parameter at or below the crossing of a plane with coefficient `c`
/// gives a position at or below that plane (positive direction).
proof fn kernel_le_plane_pos(c: int, p: int, d: int, n: int, t: Frac)
    by (nonlinear_arith)
    requires
        t.num * (n * d) <= (c - n * p) * t.den,
    ensures
        (p * t.den + t.num * d) * n <= c * t.den,
{
}

/// A parameter at or below the crossing of a plane with coefficient `c`
/// gives a position at or above that plane (negative direction).
proof fn kernel_ge_plane_neg(c: int, p: int, d: int, n: int, t: Frac)
    by (nonlinear_arith)
    requires
        t.num * (n * (-d)) <= (n * p - c) * t.den,
    ensures
        c * t.den <= (p * t.den + t.num * d) * n,
{
}

/// The position along the segment is monotone in the parameter when the
/// direction is positive.
proof fn kernel_pos_mono_pos(p: int, d: int, t1: Frac, t2: Frac)
    requires
        t1.num * t2.den <= t2.num * t1.den,
        d > 0,
    ensures
        (p * t1.den + t1.num * d) * t2.den <= (p * t2.den + t2.num * d) * t1.den,
{
    assert((p * t1.den + t1.num * d) * t2.den == p * (t1.den * t2.den) + (t1.num * t2.den) * d)
        by (nonlinear_arith);
    assert((p * t2.den + t2.num * d) * t1.den == p * (t1.den * t2.den) + (t2.num * t1.den) * d)
        by (nonlinear_arith);
    assert((t1.num * t2.den) * d <= (t2.num * t1.den) * d) by (nonlinear_arith)
        requires
            t1.num * t2.den <= t2.num * t1.den,
            d > 0,
    ;
}

/// The position along the segment is antitone in the parameter when the
/// direction is negative.
proof fn kernel_pos_mono_neg(p: int, d: int, t1: Frac, t2: Frac)
    requires
        t1.num * t2.den <= t2.num * t1.den,
        d < 0,
    ensures
        (p * t2.den + t2.num * d) * t1.den <= (p * t1.den + t1.num * d) * t2.den,
{
    assert((p * t1.den + t1.num * d) * t2.den == p * (t1.den * t2.den) + (t1.num * t2.den) * d)
        by (nonlinear_arith);
    assert((p * t2.den + t2.num * d) * t1.den == p * (t1.den * t2.den) + (t2.num * t1.den) * d)
        by (nonlinear_arith);
    assert((t2.num * t1.den) * d <= (t1.num * t2.den) * d) by (nonlinear_arith)
        requires
            t1.num * t2.den <= t2.num * t1.den,
            d < 0,
    ;
}

/// The crossing numerators are bounded well within [`FRAC_BOUND`].
proof fn lemma_crossing_num_bound(p: int, d: int, hw: int, n: int, k: int)
    requires
        -COORD_LIMIT <= p <= COORD_LIMIT,
        0 < hw <= COORD_LIMIT,
        0 < n <= N_LIMIT,
        0 <= k <= n,
    ensures
        -FRAC_BOUND <= crossing_num(p, d, hw, n, k) <= FRAC_BOUND,
{
    assert(-FRAC_BOUND <= hw * (2 * k - n) - n * p <= FRAC_BOUND && -FRAC_BOUND <= n * p - hw * (2
        * k - n) <= FRAC_BOUND) by (nonlinear_arith)
        requires
            -COORD_LIMIT <= p <= COORD_LIMIT,
            0 < hw <= COORD_LIMIT,
            0 < n <= 1024,
            0 <= k <= n,
    ;
}

/// Stepping the plane index towards the traversal direction adds `2 * hw`
/// to the crossing numerator.
proof fn lemma_crossing_inc(p: int, d: int, hw: int, n: int, k: int)
    requires
        d != 0,
    ensures
        d > 0 ==> crossing_num(p, d, hw, n, k + 1) == crossing_num(p, d, hw, n, k) + 2 * hw,
        d < 0 ==> crossing_num(p, d, hw, n, k - 1) == crossing_num(p, d, hw, n, k) + 2 * hw,
{
    assert(hw * (2 * (k + 1) - n) - n * p == (hw * (2 * k - n) - n * p) + 2 * hw)
        by (nonlinear_arith);
    assert(n * p - hw * (2 * (k - 1) - n) == (n * p - hw * (2 * k - n)) + 2 * hw)
        by (nonlinear_arith);
}

/// For a positive direction, crossings are ordered as their plane indices.
proof fn lemma_crossing_lt_pos(p: int, d: int, hw: int, n: int, k1: int, k2: int)
    requires
        d > 0,
        0 < hw,
        0 < n,
        rlt(crossing(p, d, hw, n, k1), crossing(p, d, hw, n, k2)),
    ensures
        k1 < k2,
{
    assert(n * d > 0) by (nonlinear_arith)
        requires
            n > 0,
            d > 0,
    ;
    kernel_cancel_lt(hw * (2 * k1 - n) - n * p, hw * (2 * k2 - n) - n * p, n * d);
    assert(hw * (2 * k1 - n) < hw * (2 * k2 - n));
    kernel_cancel_lt_left(2 * k1 - n, 2 * k2 - n, hw);
}

/// For a negative direction, crossings are ordered against their plane
/// indices.
proof fn lemma_crossing_lt_neg(p: int, d: int, hw: int, n: int, k1: int, k2: int)
    requires
        d < 0,
        0 < hw,
        0 < n,
        rlt(crossing(p, d, hw, n, k1), crossing(p, d, hw, n, k2)),
    ensures
        k1 > k2,
{
    assert(n * (-d) > 0) by (nonlinear_arith)
        requires
            n > 0,
            d < 0,
    ;
    kernel_cancel_lt(n * p - hw * (2 * k1 - n), n * p - hw * (2 * k2 - n), n * (-d));
    assert(hw * (2 * k2 - n) < hw * (2 * k1 - n));
    kernel_cancel_lt_left(2 * k2 - n, 2 * k1 - n, hw);
}

/// Window lemma, positive direction: a position between a parameter already
/// inside slab `i` and the crossing of plane `i + 1` is inside slab `i`.
proof fn lemma_window_pos(p: int, d: int, hw: int, n: int, i: int, t1: Frac, t2: Frac)
    requires
        d > 0,
        0 < n,
        0 < hw,
        t1.den > 0,
        t2.den > 0,
        ge_plane(p, d, hw, n, i, t1),
        rle(t1.rat(), t2.rat()),
        rle(t2.rat(), crossing(p, d, hw, n, i + 1)),
    ensures
        axis_in_slab_at(p, d, hw, n, i, t2),
{
    kernel_le_plane_pos(hw * (2 * (i + 1) - n), p, d, n, t2);
    kernel_pos_mono_pos(p, d, t1, t2);
    let lower = Rat { n: hw * (2 * i - n), d: n };
    let pos1 = Rat { n: p * t1.den + t1.num * d, d: t1.den as int };
    let pos2 = Rat { n: p * t2.den + t2.num * d, d: t2.den as int };
    lemma_rle_trans(lower, pos1, pos2);
}

/// Window lemma, negative direction.
proof fn lemma_window_neg(p: int, d: int, hw: int, n: int, i: int, t1: Frac, t2: Frac)
    requires
        d < 0,
        0 < n,
        0 < hw,
        t1.den > 0,
        t2.den > 0,
        le_plane(p, d, hw, n, i + 1, t1),
        rle(t1.rat(), t2.rat()),
        rle(t2.rat(), crossing(p, d, hw, n, i)),
    ensures
        axis_in_slab_at(p, d, hw, n, i, t2),
{
    kernel_ge_plane_neg(hw * (2 * i - n), p, d, n, t2);
    kernel_pos_mono_neg(p, d, t1, t2);
    let upper = Rat { n: hw * (2 * (i + 1) - n), d: n };
    let pos1 = Rat { n: p * t1.den + t1.num * d, d: t1.den as int };
    let pos2 = Rat { n: p * t2.den + t2.num * d, d: t2.den as int };
    lemma_rle_trans(pos2, pos1, upper);
}

/// Window lemma for an axis the segment does not move along.
proof fn lemma_window_zero(p: int, hw: int, n: int, i: int, t2: Frac)
    requires
        t2.den > 0,
        hw * (2 * i - n) <= p * n,
        p * n < hw * (2 * (i + 1) - n),
    ensures
        axis_in_slab_at(p, 0, hw, n, i, t2),
{
    assert(hw * (2 * i - n) * t2.den <= (p * t2.den + t2.num * 0) * n && (p * t2.den + t2.num * 0)
        * n <= hw * (2 * (i + 1) - n) * t2.den) by (nonlinear_arith)
        requires
            t2.den > 0,
            hw * (2 * i - n) <= p * n,
            p * n < hw * (2 * (i + 1) - n),
    ;
}

/// At the crossing of plane `k` (positive direction) the position sits on
/// the lower face of slab `k`, hence inside slab `k`.
proof fn lemma_cross_pos(p: int, d: int, hw: int, n: int, k: int, t: Frac)
    requires
        d > 0,
        0 < n,
        0 < hw,
        t.den > 0,
        t.rat() == crossing(p, d, hw, n, k),
    ensures
        axis_in_slab_at(p, d, hw, n, k, t),
{
    assert(hw * (2 * (k + 1) - n) == hw * (2 * k - n) + 2 * hw) by (nonlinear_arith);
    kernel_at_cross_pos(hw * (2 * k - n), hw * (2 * (k + 1) - n), p, d, n, t);
}

/// At the crossing of plane `k` (negative direction) the position sits on
/// the upper face of slab `k - 1`, hence inside slab `k - 1`.
proof fn lemma_cross_neg(p: int, d: int, hw: int, n: int, k: int, t: Frac)
    requires
        d < 0,
        0 < n,
        0 < hw,
        t.den > 0,
        t.rat() == crossing(p, d, hw, n, k),
    ensures
        axis_in_slab_at(p, d, hw, n, k - 1, t),
{
    assert(hw * (2 * (k - 1) - n) == hw * (2 * k - n) - 2 * hw) by (nonlinear_arith);
    kernel_at_cross_neg(hw * (2 * (k - 1) - n), hw * (2 * k - n), p, d, n, t);
}

/// At an exact plane crossing (positive direction) the position equals the
/// plane with coefficient `c`, which pins it between `c` and any `c2 >= c`.
proof fn kernel_at_cross_pos(c: int, c2: int, p: int, d: int, n: int, t: Frac)
    by (nonlinear_arith)
    requires
        t.num == c - n * p,
        t.den == n * d,
        c <= c2,
        d > 0,
        n > 0,
    ensures
        c * t.den <= (p * t.den + t.num * d) * n,
        (p * t.den + t.num * d) * n <= c2 * t.den,
{
}

/// At an exact plane crossing (negative direction) the position equals the
/// plane with coefficient `c`, which pins it between any `c3 <= c` and `c`.
proof fn kernel_at_cross_neg(c3: int, c: int, p: int, d: int, n: int, t: Frac)
    by (nonlinear_arith)
    requires
        t.num == n * p - c,
        t.den == n * (-d),
        c3 <= c,
        d < 0,
        n > 0,
    ensures
        c3 * t.den <= (p * t.den + t.num * d) * n,
        (p * t.den + t.num * d) * n <= c * t.den,
{
}

// ---------------------------------------------------------------------------
// Per-axis traversal state
// ---------------------------------------------------------------------------
/// Traversal state of one axis.
struct AxisState {
    /// The segment moves along this axis (`d != 0`).
    active: bool,
    /// The direction is positive.
    pos: bool,
    /// The current voxel index along this axis.
    i: usize,
    /// The crossing parameter of the next plane (meaningful when active).
    next: Frac,
}

/// Loop invariant of one axis at current parameter `cur`.
spec fn axis_inv(p: int, d: int, hw: int, n: int, st: AxisState, cur: Frac) -> bool {
    &&& st.active == (d != 0)
    &&& st.pos == (d > 0)
    &&& (st.i as int) < n
    &&& axis_in_slab_at(p, d, hw, n, st.i as int, cur)
    &&& (st.active ==> {
        &&& st.next.wf()
        &&& st.next.rat() == crossing(p, d, hw, n, if d > 0 { st.i + 1 } else { st.i as int })
        &&& rle(cur.rat(), st.next.rat())
    })
    &&& (!st.active ==> hw * (2 * st.i - n) <= p * n && p * n < hw * (2 * (st.i + 1) - n))
}

/// Remaining plane crossings of one axis, the termination measure.
spec fn axis_measure(st: AxisState, n: int) -> int {
    if st.active {
        if st.pos {
            n - st.i
        } else {
            st.i + 1
        }
    } else {
        0
    }
}

/// Initial state of one axis at the clipped entry parameter `a_in`.
fn axis_setup(p: i64, d: i64, hw: i64, n: usize, a_in: Frac) -> (st: AxisState)
    requires
        -COORD_LIMIT <= p <= COORD_LIMIT,
        -2 * COORD_LIMIT <= d <= 2 * COORD_LIMIT,
        0 < hw <= COORD_LIMIT,
        0 < n <= N_LIMIT,
        a_in.wf(),
        d != 0 ==> rle(axis_entry(p as int, d as int, hw as int, n as int), a_in.rat()),
        d != 0 ==> rlt(a_in.rat(), axis_exit(p as int, d as int, hw as int, n as int)),
        d == 0 ==> in_slab(p as int, hw as int),
    ensures
        axis_inv(p as int, d as int, hw as int, n as int, st, a_in),
{
    if d == 0 {
        let i = slab_index_exec(p, hw, n);
        proof {
            crate::fov::lemma_slab_index_bounds(p as int, hw as int, n as int);
            lemma_window_zero(p as int, hw as int, n as int, i as int, a_in);
        }
        return AxisState { active: false, pos: false, i, next: frac_one() };
    }
    let ad: i64 = a_in.den;
    let an: i64 = a_in.num;
    proof {
        lemma_mul_bound(p as int, ad as int, COORD_LIMIT as int, FRAC_BOUND as int);
        lemma_mul_bound(an as int, d as int, FRAC_BOUND as int, 2 * COORD_LIMIT as int);
        lemma_mul_bound(hw as int, ad as int, COORD_LIMIT as int, FRAC_BOUND as int);
    }
    let xn: i128 = (p as i128) * (ad as i128) + (an as i128) * (d as i128);
    proof {
        lemma_mul_bound(
            xn + (hw as int) * (ad as int),
            n as int,
            4 * COORD_LIMIT as int * FRAC_BOUND as int,
            N_LIMIT as int,
        );
        lemma_mul_bound(2 * hw as int, ad as int, 2 * COORD_LIMIT as int, FRAC_BOUND as int);
    }
    let nn: i128 = (xn + (hw as i128) * (ad as i128)) * (n as i128);
    let dd: i128 = 2 * (hw as i128) * (ad as i128);
    proof {
        // The numerator is non-negative: the clipped entry parameter is at
        // or past this axis's own entry plane.
        if d > 0 {
            assert(nn >= 0) by (nonlinear_arith)
                requires
                    (hw * (2 * 0 - n) - n * p) * ad <= an * (n * d),
                    nn == ((p * ad + an * d) + hw * ad) * n,
                    n > 0,
                    ad > 0,
            ;
        } else {
            assert(nn > 0) by (nonlinear_arith)
                requires
                    an * (n * (-d)) < (n * p - hw * (2 * 0 - n)) * ad,
                    nn == ((p * ad + an * d) + hw * ad) * n,
                    n > 0,
                    ad > 0,
            ;
        }
        assert(dd > 0) by (nonlinear_arith)
            requires
                hw > 0,
                ad > 0,
                dd == 2 * hw * ad,
        ;
    }
    let q128: u128 = (nn as u128) / (dd as u128);
    let r128: u128 = (nn as u128) % (dd as u128);
    proof {
        vstd::arithmetic::div_mod::lemma_fundamental_div_mod(nn as int, dd as int);
        vstd::arithmetic::div_mod::lemma_mod_division_less_than_divisor(nn as int, dd as int);
        assert(q128 == nn / dd && r128 == nn % dd);
    }
    let ghost q = q128 as int;
    let ghost rr = r128 as int;
    if d > 0 {
        proof {
            // q < n because the position is strictly below the exit plane.
            assert(q < n) by (nonlinear_arith)
                requires
                    an * (n * d) < (hw * (2 * n - n) - n * p) * ad,
                    nn == ((p * ad + an * d) + hw * ad) * n,
                    nn == dd * q + rr,
                    0 <= rr < dd,
                    dd == 2 * hw * ad,
                    n > 0,
                    ad > 0,
                    hw > 0,
                    d > 0,
                    0 <= nn,
            ;
            assert(0 <= q) by (nonlinear_arith)
                requires
                    nn == dd * q + rr,
                    0 <= rr < dd,
                    0 <= nn,
                    dd > 0,
            ;
            // Containment at a_in and strict bound by the next crossing.
            assert(hw * (2 * q - n) * ad <= (p * ad + an * d) * n && (p * ad + an * d) * n < hw * (2
                * (q + 1) - n) * ad && an * (n * d) < (hw * (2 * (q + 1) - n) - n * p) * ad)
                by (nonlinear_arith)
                requires
                    nn == ((p * ad + an * d) + hw * ad) * n,
                    nn == dd * q + rr,
                    0 <= rr < dd,
                    dd == 2 * hw * ad,
                    n > 0,
                    ad > 0,
                    hw > 0,
            ;
        }
        let i: usize = q128 as usize;
        let next = crossing_exec(p, d, hw, n as i64, (i as i64) + 1);
        return AxisState { active: true, pos: true, i, next };
    }
    // d < 0: on an exact plane crossing the traversal enters the voxel below.
    proof {
        assert(q <= n && (q == n ==> rr == 0)) by (nonlinear_arith)
            requires
                (n * p - hw * (2 * n - n)) * ad <= an * (n * (-d)),
                nn == ((p * ad + an * d) + hw * ad) * n,
                nn == dd * q + rr,
                0 <= rr < dd,
                dd == 2 * hw * ad,
                n > 0,
                ad > 0,
                hw > 0,
                d < 0,
        ;
        assert(0 <= q) by (nonlinear_arith)
            requires
                nn == dd * q + rr,
                0 <= rr < dd,
                0 <= nn,
                dd > 0,
        ;
        assert(rr == 0 ==> q >= 1) by (nonlinear_arith)
            requires
                nn == dd * q + rr,
                nn > 0,
                dd > 0,
                0 <= q,
        ;
        assert(hw * (2 * q - n) * ad <= (p * ad + an * d) * n && (rr != 0 ==> (p * ad + an * d) * n
            < hw * (2 * (q + 1) - n) * ad) && (rr == 0 ==> (p * ad + an * d) * n == hw * (2 * q
            - n) * ad)) by (nonlinear_arith)
            requires
                nn == ((p * ad + an * d) + hw * ad) * n,
                nn == dd * q + rr,
                0 <= rr < dd,
                dd == 2 * hw * ad,
                n > 0,
                ad > 0,
                hw > 0,
        ;
    }
    let exact: bool = r128 == 0;
    let i: usize = if exact {
        (q128 as usize) - 1
    } else {
        q128 as usize
    };
    proof {
        if !exact {
            assert(q < n);
        }
        // Containment of slab i at a_in.
        if exact {
            assert(hw * (2 * (q - 1) - n) * ad <= (p * ad + an * d) * n) by (nonlinear_arith)
                requires
                    (p * ad + an * d) * n == hw * (2 * q - n) * ad,
                    hw > 0,
                    ad > 0,
            ;
        }
        // The next crossing (plane i) is at or past a_in.
        assert(an * (n * (-d)) <= (n * p - hw * (2 * i - n)) * ad) by (nonlinear_arith)
            requires
                hw * (2 * i - n) * ad <= (p * ad + an * d) * n,
                n > 0,
                ad > 0,
                d < 0,
        ;
    }
    let next = crossing_exec(p, d, hw, n as i64, i as i64);
    AxisState { active: true, pos: false, i, next }
}


/// Positivity of the shared crossing denominator.
proof fn lemma_axis_den_pos(d: int, n: int)
    requires
        d != 0,
        0 < n,
    ensures
        axis_den(d, n) > 0,
{
    assert(d > 0 ==> n * d > 0) by (nonlinear_arith)
        requires
            n > 0,
    ;
    assert(d < 0 ==> n * (-d) > 0) by (nonlinear_arith)
        requires
            n > 0,
    ;
}

/// A strictly larger numerator over the same positive denominator gives a
/// strictly larger fraction.
proof fn kernel_same_den_lt(t1: Frac, t2: Frac)
    by (nonlinear_arith)
    requires
        t1.den == t2.den,
        t1.den > 0,
        t1.num < t2.num,
    ensures
        rlt(t1.rat(), t2.rat()),
        t1.num * t2.den < t2.num * t1.den,
{
}

impl Siddon {
    /// Compute the system-matrix row of `lor` through `fov` into the
    /// caller-supplied buffer, which is overwritten (never reallocated
    /// beyond its grown capacity).  The result satisfies the exact
    /// geometric contract [`row_valid`].
    #[verifier::rlimit(60)]
    pub fn compute_row(fov: &FOV, lor: &Lor, row: &mut SystemMatrixRow)
        requires
            fov.wf(),
            lor.wf(),
        ensures
            row_valid(*fov, *lor, final(row).entries@),
    {
        row.entries.clear();
        let p1 = lor.p1;
        let dx = lor.p2.x - p1.x;
        let dy = lor.p2.y - p1.y;
        let dz = lor.p2.z - p1.z;
        let hwx = fov.half_width.x;
        let hwy = fov.half_width.y;
        let hwz = fov.half_width.z;
        let nx = fov.n.x;
        let ny = fov.n.y;
        let nz = fov.n.z;
        if dx == 0 && dy == 0 && dz == 0 {
            return ;
        }
        if dx == 0 && (p1.x < -hwx || p1.x >= hwx) {
            return ;
        }
        if dy == 0 && (p1.y < -hwy || p1.y >= hwy) {
            return ;
        }
        if dz == 0 && (p1.z < -hwz || p1.z >= hwz) {
            return ;
        }
        let a_in = alpha_in_exec(fov, lor);
        let a_out = alpha_out_exec(fov, lor);
        if !frac_lt(a_in, a_out) {
            return ;
        }
        proof {
            if dx != 0 {
                lemma_axis_den_pos(dx as int, nx as int);
                lemma_rlt_rle_trans(
                    a_in.rat(),
                    a_out.rat(),
                    axis_exit(p1.x as int, dx as int, hwx as int, nx as int),
                );
            }
            if dy != 0 {
                lemma_axis_den_pos(dy as int, ny as int);
                lemma_rlt_rle_trans(
                    a_in.rat(),
                    a_out.rat(),
                    axis_exit(p1.y as int, dy as int, hwy as int, ny as int),
                );
            }
            if dz != 0 {
                lemma_axis_den_pos(dz as int, nz as int);
                lemma_rlt_rle_trans(
                    a_in.rat(),
                    a_out.rat(),
                    axis_exit(p1.z as int, dz as int, hwz as int, nz as int),
                );
            }
        }
        let mut sx = axis_setup(p1.x, dx, hwx, nx, a_in);
        let mut sy = axis_setup(p1.y, dy, hwy, ny, a_in);
        let mut sz = axis_setup(p1.z, dz, hwz, nz, a_in);
        let mut cur = a_in;
        loop
            invariant_except_break
                fov.wf(),
                lor.wf(),
                p1 == lor.p1,
                dx == lor.p2.x - p1.x,
                dy == lor.p2.y - p1.y,
                dz == lor.p2.z - p1.z,
                hwx == fov.half_width.x,
                hwy == fov.half_width.y,
                hwz == fov.half_width.z,
                nx == fov.n.x,
                ny == fov.n.y,
                nz == fov.n.z,
                lor_nondegenerate(*fov, *lor),
                a_in.wf(),
                a_out.wf(),
                a_in.rat() == alpha_in(*fov, *lor),
                a_out.rat() == alpha_out(*fov, *lor),
                rlt(a_in.rat(), a_out.rat()),
                rle(rat_zero(), a_in.rat()),
                rle(a_out.rat(), rat_one()),
                dx != 0 ==> rle(
                    a_out.rat(),
                    axis_exit(p1.x as int, dx as int, hwx as int, nx as int),
                ),
                dy != 0 ==> rle(
                    a_out.rat(),
                    axis_exit(p1.y as int, dy as int, hwy as int, ny as int),
                ),
                dz != 0 ==> rle(
                    a_out.rat(),
                    axis_exit(p1.z as int, dz as int, hwz as int, nz as int),
                ),
                cur.wf(),
                rle(a_in.rat(), cur.rat()),
                rlt(cur.rat(), a_out.rat()),
                axis_inv(p1.x as int, dx as int, hwx as int, nx as int, sx, cur),
                axis_inv(p1.y as int, dy as int, hwy as int, ny as int, sy, cur),
                axis_inv(p1.z as int, dz as int, hwz as int, nz as int, sz, cur),
                forall|j: int|
                    0 <= j < row.entries@.len() ==> {
                        let e = #[trigger] row.entries@[j];
                        &&& e.lo.wf()
                        &&& e.hi.wf()
                        &&& rle(e.lo.rat(), e.hi.rat())
                        &&& rle(rat_zero(), e.lo.rat())
                        &&& rle(e.hi.rat(), rat_one())
                        &&& entry_in_voxel(*fov, *lor, e)
                    },
                forall|j: int|
                    0 <= j < row.entries@.len() - 1 ==> (#[trigger] row.entries@[j]).hi
                        == row.entries@[j + 1].lo,
                forall|j: int|
                    0 <= j < row.entries@.len() - 1 ==> step_adjacent(
                        *lor,
                        #[trigger] row.entries@[j],
                        row.entries@[j + 1],
                    ),
                row.entries@.len() == 0 ==> cur == a_in,
                row.entries@.len() > 0 ==> row.entries@[0].lo == a_in,
                row.entries@.len() > 0 ==> row.entries@[row.entries@.len() - 1].hi == cur,
                row.entries@.len() > 0 ==> vox_step(
                    *lor,
                    row.entries@[row.entries@.len() - 1].ix as int,
                    row.entries@[row.entries@.len() - 1].iy as int,
                    row.entries@[row.entries@.len() - 1].iz as int,
                    sx.i as int,
                    sy.i as int,
                    sz.i as int,
                ),
            ensures
                row.entries@.len() > 0,
                row.entries@[0].lo == a_in,
                row.entries@[row.entries@.len() - 1].hi == a_out,
                forall|j: int|
                    0 <= j < row.entries@.len() ==> {
                        let e = #[trigger] row.entries@[j];
                        &&& e.lo.wf()
                        &&& e.hi.wf()
                        &&& rle(e.lo.rat(), e.hi.rat())
                        &&& rle(rat_zero(), e.lo.rat())
                        &&& rle(e.hi.rat(), rat_one())
                        &&& entry_in_voxel(*fov, *lor, e)
                    },
                forall|j: int|
                    0 <= j < row.entries@.len() - 1 ==> (#[trigger] row.entries@[j]).hi
                        == row.entries@[j + 1].lo,
                forall|j: int|
                    0 <= j < row.entries@.len() - 1 ==> step_adjacent(
                        *lor,
                        #[trigger] row.entries@[j],
                        row.entries@[j + 1],
                    ),
            decreases axis_measure(sx, nx as int) + axis_measure(sy, ny as int) + axis_measure(
                sz,
                nz as int,
            ),
        {
            let mut target = a_out;
            let mut which: usize = 3;
            if sx.active && frac_lt(sx.next, target) {
                target = sx.next;
                which = 0;
            }
            if sy.active && frac_lt(sy.next, target) {
                proof {
                    if sx.active {
                        lemma_rlt_rle_trans(sy.next.rat(), target.rat(), sx.next.rat());
                    }
                    lemma_rlt_rle_trans(sy.next.rat(), target.rat(), a_out.rat());
                }
                target = sy.next;
                which = 1;
            }
            if sz.active && frac_lt(sz.next, target) {
                proof {
                    if sx.active {
                        lemma_rlt_rle_trans(sz.next.rat(), target.rat(), sx.next.rat());
                    }
                    if sy.active {
                        lemma_rlt_rle_trans(sz.next.rat(), target.rat(), sy.next.rat());
                    }
                    lemma_rlt_rle_trans(sz.next.rat(), target.rat(), a_out.rat());
                }
                target = sz.next;
                which = 2;
            }
            proof {
                // The chosen parameter is at or past cur and at or before
                // every axis's next crossing.
                assert(rle(cur.rat(), target.rat()));
                // Containment of the current voxel over [cur, target].
                if dx != 0 {
                    if dx > 0 {
                        lemma_window_pos(
                            p1.x as int,
                            dx as int,
                            hwx as int,
                            nx as int,
                            sx.i as int,
                            cur,
                            target,
                        );
                    } else {
                        lemma_window_neg(
                            p1.x as int,
                            dx as int,
                            hwx as int,
                            nx as int,
                            sx.i as int,
                            cur,
                            target,
                        );
                    }
                } else {
                    lemma_window_zero(p1.x as int, hwx as int, nx as int, sx.i as int, target);
                }
                if dy != 0 {
                    if dy > 0 {
                        lemma_window_pos(
                            p1.y as int,
                            dy as int,
                            hwy as int,
                            ny as int,
                            sy.i as int,
                            cur,
                            target,
                        );
                    } else {
                        lemma_window_neg(
                            p1.y as int,
                            dy as int,
                            hwy as int,
                            ny as int,
                            sy.i as int,
                            cur,
                            target,
                        );
                    }
                } else {
                    lemma_window_zero(p1.y as int, hwy as int, ny as int, sy.i as int, target);
                }
                if dz != 0 {
                    if dz > 0 {
                        lemma_window_pos(
                            p1.z as int,
                            dz as int,
                            hwz as int,
                            nz as int,
                            sz.i as int,
                            cur,
                            target,
                        );
                    } else {
                        lemma_window_neg(
                            p1.z as int,
                            dz as int,
                            hwz as int,
                            nz as int,
                            sz.i as int,
                            cur,
                            target,
                        );
                    }
                } else {
                    lemma_window_zero(p1.z as int, hwz as int, nz as int, sz.i as int, target);
                }
            }
            proof {
                lemma_rle_trans(rat_zero(), a_in.rat(), cur.rat());
                lemma_rle_trans(target.rat(), a_out.rat(), rat_one());
            }
            let entry = RowEntry { ix: sx.i, iy: sy.i, iz: sz.i, lo: cur, hi: target };
            row.entries.push(entry);
            if which == 3 {
                break ;
            }
            proof {
                lemma_rle_trans(a_in.rat(), cur.rat(), target.rat());
            }
            cur = target;
            if which == 0 {
                proof {
                    lemma_axis_den_pos(dx as int, nx as int);
                    lemma_rlt_rle_trans(
                        sx.next.rat(),
                        a_out.rat(),
                        axis_exit(p1.x as int, dx as int, hwx as int, nx as int),
                    );
                    if dx > 0 {
                        lemma_crossing_lt_pos(
                            p1.x as int,
                            dx as int,
                            hwx as int,
                            nx as int,
                            sx.i + 1,
                            nx as int,
                        );
                        lemma_cross_pos(
                            p1.x as int,
                            dx as int,
                            hwx as int,
                            nx as int,
                            sx.i + 1,
                            target,
                        );
                        lemma_crossing_inc(p1.x as int, dx as int, hwx as int, nx as int, sx.i + 1);
                        lemma_crossing_num_bound(
                            p1.x as int,
                            dx as int,
                            hwx as int,
                            nx as int,
                            sx.i + 2,
                        );
                    } else {
                        lemma_crossing_lt_neg(
                            p1.x as int,
                            dx as int,
                            hwx as int,
                            nx as int,
                            sx.i as int,
                            0,
                        );
                        lemma_cross_neg(
                            p1.x as int,
                            dx as int,
                            hwx as int,
                            nx as int,
                            sx.i as int,
                            target,
                        );
                        lemma_crossing_inc(
                            p1.x as int,
                            dx as int,
                            hwx as int,
                            nx as int,
                            sx.i as int,
                        );
                        lemma_crossing_num_bound(
                            p1.x as int,
                            dx as int,
                            hwx as int,
                            nx as int,
                            sx.i - 1,
                        );
                    }
                }
                let stepped = Frac { num: sx.next.num + 2 * hwx, den: sx.next.den };
                proof {
                    kernel_same_den_lt(sx.next, stepped);
                }
                if sx.pos {
                    sx = AxisState { i: sx.i + 1, next: stepped, ..sx };
                } else {
                    sx = AxisState { i: sx.i - 1, next: stepped, ..sx };
                }
            } else if which == 1 {
                proof {
                    lemma_axis_den_pos(dy as int, ny as int);
                    lemma_rlt_rle_trans(
                        sy.next.rat(),
                        a_out.rat(),
                        axis_exit(p1.y as int, dy as int, hwy as int, ny as int),
                    );
                    if dy > 0 {
                        lemma_crossing_lt_pos(
                            p1.y as int,
                            dy as int,
                            hwy as int,
                            ny as int,
                            sy.i + 1,
                            ny as int,
                        );
                        lemma_cross_pos(
                            p1.y as int,
                            dy as int,
                            hwy as int,
                            ny as int,
                            sy.i + 1,
                            target,
                        );
                        lemma_crossing_inc(p1.y as int, dy as int, hwy as int, ny as int, sy.i + 1);
                        lemma_crossing_num_bound(
                            p1.y as int,
                            dy as int,
                            hwy as int,
                            ny as int,
                            sy.i + 2,
                        );
                    } else {
                        lemma_crossing_lt_neg(
                            p1.y as int,
                            dy as int,
                            hwy as int,
                            ny as int,
                            sy.i as int,
                            0,
                        );
                        lemma_cross_neg(
                            p1.y as int,
                            dy as int,
                            hwy as int,
                            ny as int,
                            sy.i as int,
                            target,
                        );
                        lemma_crossing_inc(
                            p1.y as int,
                            dy as int,
                            hwy as int,
                            ny as int,
                            sy.i as int,
                        );
                        lemma_crossing_num_bound(
                            p1.y as int,
                            dy as int,
                            hwy as int,
                            ny as int,
                            sy.i - 1,
                        );
                    }
                }
                let stepped = Frac { num: sy.next.num + 2 * hwy, den: sy.next.den };
                proof {
                    kernel_same_den_lt(sy.next, stepped);
                }
                if sy.pos {
                    sy = AxisState { i: sy.i + 1, next: stepped, ..sy };
                } else {
                    sy = AxisState { i: sy.i - 1, next: stepped, ..sy };
                }
            } else {
                proof {
                    lemma_axis_den_pos(dz as int, nz as int);
                    lemma_rlt_rle_trans(
                        sz.next.rat(),
                        a_out.rat(),
                        axis_exit(p1.z as int, dz as int, hwz as int, nz as int),
                    );
                    if dz > 0 {
                        lemma_crossing_lt_pos(
                            p1.z as int,
                            dz as int,
                            hwz as int,
                            nz as int,
                            sz.i + 1,
                            nz as int,
                        );
                        lemma_cross_pos(
                            p1.z as int,
                            dz as int,
                            hwz as int,
                            nz as int,
                            sz.i + 1,
                            target,
                        );
                        lemma_crossing_inc(p1.z as int, dz as int, hwz as int, nz as int, sz.i + 1);
                        lemma_crossing_num_bound(
                            p1.z as int,
                            dz as int,
                            hwz as int,
                            nz as int,
                            sz.i + 2,
                        );
                    } else {
                        lemma_crossing_lt_neg(
                            p1.z as int,
                            dz as int,
                            hwz as int,
                            nz as int,
                            sz.i as int,
                            0,
                        );
                        lemma_cross_neg(
                            p1.z as int,
                            dz as int,
                            hwz as int,
                            nz as int,
                            sz.i as int,
                            target,
                        );
                        lemma_crossing_inc(
                            p1.z as int,
                            dz as int,
                            hwz as int,
                            nz as int,
                            sz.i as int,
                        );
                        lemma_crossing_num_bound(
                            p1.z as int,
                            dz as int,
                            hwz as int,
                            nz as int,
                            sz.i - 1,
                        );
                    }
                }
                let stepped = Frac { num: sz.next.num + 2 * hwz, den: sz.next.den };
                proof {
                    kernel_same_den_lt(sz.next, stepped);
                }
                if sz.pos {
                    sz = AxisState { i: sz.i + 1, next: stepped, ..sz };
                } else {
                    sz = AxisState { i: sz.i - 1, next: stepped, ..sz };
                }
            }
        }
    }
}

} // verus!
