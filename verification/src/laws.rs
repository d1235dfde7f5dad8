//! Row-level theorems: what a computed system-matrix row guarantees.
//!
//! These proof functions state, once and for all rows satisfying
//! [`row_valid`], the geometric facts the reconstruction relies on: the
//! entry intervals telescope to the whole clipped parameter range (so the
//! weight sum equals the traversed length on the parameter scale), no voxel
//! appears twice, and a segment that misses the box produces an empty row.


use vstd::prelude::*;

use crate::fov::FOV;
use crate::frac::{radd, rat_one, rat_zero, req, rle, rmax, rmin, rsub, Rat};
use crate::image::FIXED_ONE;
use crate::lor::{Lor, CORRECTION_LIMIT};
use crate::mlem::{row_usable, spec_delta, spec_flat, spec_forward, spec_new_value, spec_weight};
use crate::system_matrix::{
    alpha_in, alpha_out, axis_entry, axis_entry_or_zero, axis_exit, axis_exit_or_one,
    entry_in_voxel, lor_d, lor_hits, row_valid, step_adjacent, RowEntry,
};

verus! {

/// The exact parameter width of one entry: `hi - lo`.
pub open spec fn entry_width(e: RowEntry) -> Rat {
    rsub(e.hi.rat(), e.lo.rat())
}

/// The exact sum of the parameter widths of a row's entries.  Multiplied by
/// the segment length, this is the total intersection length of the row.
pub open spec fn row_alpha_sum(s: Seq<RowEntry>) -> Rat
    decreases s.len(),
{
    if s.len() == 0 {
        rat_zero()
    } else {
        radd(row_alpha_sum(s.drop_last()), entry_width(s.last()))
    }
}

/// Distributivity, stated over whole subterms.
proof fn kernel_distrib(x: int, y: int, z: int)
    by (nonlinear_arith)
    ensures
        (x + y) * z == x * z + y * z,
{
}

/// A product of positives is positive.
proof fn kernel_pos_mul(x: int, y: int)
    by (nonlinear_arith)
    requires
        x > 0,
        y > 0,
    ensures
        x * y > 0,
{
}

/// Regrouping of one monomial.
proof fn kernel_ac_a(x: int, c: int, b: int, a: int)
    by (nonlinear_arith)
    ensures
        (x * (c * b)) * (c * a) == (x * (b * a)) * (c * c),
{
}

/// Regrouping of one monomial.
proof fn kernel_ac_b(u: int, s: int, c: int)
    by (nonlinear_arith)
    ensures
        (u * s) * (c * c) == (u * c) * (s * c),
{
}

/// Regrouping of one monomial.
proof fn kernel_ac_c(v: int, s: int, c: int, a: int)
    by (nonlinear_arith)
    ensures
        (v * s) * (c * a) == (v * a) * (s * c),
{
}

/// Regrouping of one monomial.
proof fn kernel_ac_d(w: int, b: int, s: int, c: int)
    by (nonlinear_arith)
    ensures
        (w * b) * (s * c) == w * (s * (c * b)),
{
}

/// The numerator identity behind telescoping: the widths `b - a` and
/// `c - b`, brought over the common denominator, add up to `c - a`.
proof fn kernel_key(an: int, ad: int, bn: int, bd: int, cn: int, cd: int)
    by (nonlinear_arith)
    ensures
        (bn * ad - an * bd) * cd + (cn * bd - bn * cd) * ad == (cn * ad - an * cd) * bd,
{
}

/// Adding the width `c - b` to a sum worth `b - a` yields a sum worth
/// `c - a`.
proof fn lemma_sum_extend(s: Rat, a: Rat, b: Rat, c: Rat)
    requires
        a.d > 0,
        b.d > 0,
        c.d > 0,
        s.d > 0,
        req(s, rsub(b, a)),
    ensures
        req(radd(s, rsub(c, b)), rsub(c, a)),
        radd(s, rsub(c, b)).d > 0,
{
    let sn = s.n;
    let sd = s.d;
    let an = a.n;
    let ad = a.d;
    let bn = b.n;
    let bd = b.d;
    let cn = c.n;
    let cd = c.d;
    let u = bn * ad - an * bd;
    let v = cn * bd - bn * cd;
    let w = cn * ad - an * cd;
    kernel_distrib(sn * (cd * bd), v * sd, cd * ad);
    kernel_ac_a(sn, cd, bd, ad);
    assert((sn * (bd * ad)) * (cd * cd) == (u * sd) * (cd * cd));
    kernel_ac_b(u, sd, cd);
    kernel_ac_c(v, sd, cd, ad);
    kernel_distrib(u * cd, v * ad, sd * cd);
    kernel_key(an, ad, bn, bd, cn, cd);
    assert((u * cd + v * ad) * (sd * cd) == (w * bd) * (sd * cd));
    kernel_ac_d(w, bd, sd, cd);
    assert((sn * (cd * bd) + v * sd) * (cd * ad) == w * (sd * (cd * bd)));
    kernel_pos_mul(cd, bd);
    kernel_pos_mul(sd, cd * bd);
}

/// The entry intervals of a non-empty chained row sum exactly to the span
/// from the first interval's start to the last interval's end.
proof fn lemma_chain_sum(s: Seq<RowEntry>)
    requires
        s.len() > 0,
        forall|k: int| 0 <= k < s.len() ==> (#[trigger] s[k]).lo.wf() && s[k].hi.wf(),
        forall|k: int| 0 <= k < s.len() - 1 ==> (#[trigger] s[k]).hi == s[k + 1].lo,
    ensures
        req(row_alpha_sum(s), rsub(s[s.len() - 1].hi.rat(), s[0].lo.rat())),
        row_alpha_sum(s).d > 0,
    decreases s.len(),
{
    if s.len() == 1 {
        let e = s[0];
        assert(s.drop_last().len() == 0);
        assert(row_alpha_sum(s.drop_last()) == rat_zero());
        assert(s.last() == e);
        assert(row_alpha_sum(s) == radd(rat_zero(), entry_width(e)));
        kernel_pos_mul(e.hi.den as int, e.lo.den as int);
        let wn = entry_width(e).n;
        let wd = entry_width(e).d;
        assert((0 * wd + wn * 1) * wd == wn * (1 * wd)) by (nonlinear_arith);
        assert(req(row_alpha_sum(s), rsub(s[s.len() - 1].hi.rat(), s[0].lo.rat())));
        assert(row_alpha_sum(s).d == 1 * wd);
        assert(1 * wd == wd) by (nonlinear_arith);
        assert(row_alpha_sum(s).d > 0);
    } else {
        let s0 = s.drop_last();
        assert(forall|k: int| 0 <= k < s0.len() ==> s0[k] == s[k]);
        lemma_chain_sum(s0);
        let last = s[s.len() - 1];
        let prev = s[s.len() - 2];
        assert(prev.hi == last.lo);
        assert(s.last() == last);
        assert(row_alpha_sum(s) == radd(row_alpha_sum(s0), entry_width(last)));
        assert(s0[s0.len() - 1] == prev && s0[0] == s[0]);
        lemma_sum_extend(
            row_alpha_sum(s0),
            s[0].lo.rat(),
            prev.hi.rat(),
            last.hi.rat(),
        );
        assert(entry_width(last) == rsub(last.hi.rat(), prev.hi.rat()));
        assert(req(row_alpha_sum(s), rsub(s[s.len() - 1].hi.rat(), s[0].lo.rat())));
        assert(row_alpha_sum(s).d > 0);
    }
}

/// The weight sum of a computed row, on the parameter scale: for any line
/// of response that meets the field of view, the widths of the row's
/// intervals sum exactly to `alpha_out - alpha_in`.  Scaled by the segment
/// length, this is the total intersection length of the segment with the
/// box; for a segment whose clipped range is all of `[0, 1]` the sum is
/// exactly one, i.e. the full segment length.
pub proof fn lemma_row_weight_sum(fov: FOV, lor: Lor, s: Seq<RowEntry>)
    requires
        row_valid(fov, lor, s),
        lor_hits(fov, lor),
    ensures
        req(row_alpha_sum(s), rsub(alpha_out(fov, lor), alpha_in(fov, lor))),
{
    assert(s.len() > 0);
    lemma_chain_sum(s);
}

/// Traversal progress of an entry: the sum of its indices, each counted
/// along the direction the segment moves on that axis.  Each traversal step
/// advances it by exactly one.
pub open spec fn progress(lor: Lor, e: RowEntry) -> int {
    let (dx, dy, dz) = lor_d(lor);
    (if dx > 0 {
        e.ix as int
    } else if dx < 0 {
        -(e.ix as int)
    } else {
        0
    }) + (if dy > 0 {
        e.iy as int
    } else if dy < 0 {
        -(e.iy as int)
    } else {
        0
    }) + (if dz > 0 {
        e.iz as int
    } else if dz < 0 {
        -(e.iz as int)
    } else {
        0
    })
}

/// One traversal step advances the progress measure by exactly one.
proof fn lemma_step_progress(lor: Lor, a: RowEntry, b: RowEntry)
    requires
        step_adjacent(lor, a, b),
    ensures
        progress(lor, b) == progress(lor, a) + 1,
{
}

/// Along a chained row, progress grows linearly with the position.
proof fn lemma_progress_linear(lor: Lor, s: Seq<RowEntry>, j: int, k: int)
    requires
        forall|m: int| 0 <= m < s.len() - 1 ==> step_adjacent(lor, #[trigger] s[m], s[m + 1]),
        0 <= j <= k < s.len(),
    ensures
        progress(lor, s[k]) == progress(lor, s[j]) + (k - j),
    decreases k - j,
{
    if j < k {
        lemma_progress_linear(lor, s, j, k - 1);
        lemma_step_progress(lor, s[k - 1], s[k]);
    }
}

/// A system-matrix row never contains the same voxel twice: any two
/// distinct entries of a computed row name distinct voxels.
pub proof fn lemma_row_no_duplicates(fov: FOV, lor: Lor, s: Seq<RowEntry>, j: int, k: int)
    requires
        row_valid(fov, lor, s),
        0 <= j < k < s.len(),
    ensures
        !(s[j].ix == s[k].ix && s[j].iy == s[k].iy && s[j].iz == s[k].iz),
{
    lemma_progress_linear(lor, s, j, k);
}

/// A row's length is bounded by the total number of grid steps a segment
/// can take: progress advances by one per entry and is confined to
/// `(-3 * 1024, 3 * 1024)` by the index ranges.
pub proof fn lemma_row_len_bound(fov: FOV, lor: Lor, s: Seq<RowEntry>)
    requires
        fov.wf(),
        row_valid(fov, lor, s),
    ensures
        s.len() <= 6145,
{
    if s.len() > 1 {
        lemma_progress_linear(lor, s, 0, s.len() - 1);
        assert(entry_in_voxel(fov, lor, s[0]));
        assert(entry_in_voxel(fov, lor, s[s.len() - 1]));
    }
}

/// A line of response that misses the field of view entirely (or is
/// degenerate) yields an empty row, and conversely a row is empty only for
/// such a line.
pub proof fn lemma_miss_empty(fov: FOV, lor: Lor, s: Seq<RowEntry>)
    requires
        row_valid(fov, lor, s),
    ensures
        s.len() == 0 <==> !lor_hits(fov, lor),
{
}


/// The total fixed-point weight of a row.
pub open spec fn row_weight_total(s: Seq<RowEntry>) -> int
    decreases s.len(),
{
    if s.len() == 0 {
        0
    } else {
        row_weight_total(s.drop_last()) + spec_weight(s.last())
    }
}

/// Forward-projecting a uniform image through a row gives the image value
/// times the row's total fixed-point weight — i.e. the total intersection
/// length of the line inside the box, on the parameter scale.
pub proof fn lemma_forward_uniform(fov: FOV, s: Seq<RowEntry>, data: Seq<u64>, c: u64)
    requires
        row_usable(fov, s),
        data.len() == fov.nvox(),
        forall|v: int| 0 <= v < data.len() ==> data[v] == c,
    ensures
        spec_forward(fov, s, data) == c * row_weight_total(s),
    decreases s.len(),
{
    if s.len() == 0 {
        assert(c * 0 == 0) by (nonlinear_arith);
    } else {
        let s0 = s.drop_last();
        assert(forall|k: int| 0 <= k < s0.len() ==> s0[k] == s[k]);
        lemma_forward_uniform(fov, s0, data, c);
        let e = s.last();
        assert(e == s[s.len() - 1]);
        crate::fov::lemma_flat_index_bounds(
            e.ix as int,
            e.iy as int,
            e.iz as int,
            fov.n.x as int,
            fov.n.y as int,
            fov.n.z as int,
        );
        assert(data[spec_flat(fov, e)] == c);
        assert(c * row_weight_total(s0) + spec_weight(e) * c == c * (row_weight_total(s0)
            + spec_weight(e))) by (nonlinear_arith);
    }
}


/// A maximum with a zero accumulator stays zero when the new entry is at
/// most zero.
proof fn lemma_rmax_zero(m: Rat, a: Rat)
    requires
        m.d > 0,
        a.d > 0,
        req(m, rat_zero()),
        rle(a, rat_zero()),
    ensures
        req(rmax(m, a), rat_zero()),
        rmax(m, a).d > 0,
{
    if rle(m, a) {
        crate::frac::lemma_rle_trans(rat_zero(), m, a);
    }
}

/// A minimum with a one accumulator stays one when the new entry is at
/// least one.
proof fn lemma_rmin_one(m: Rat, a: Rat)
    requires
        m.d > 0,
        a.d > 0,
        req(m, rat_one()),
        rle(rat_one(), a),
    ensures
        req(rmin(m, a), rat_one()),
        rmin(m, a).d > 0,
{
    if !rle(m, a) {
        crate::frac::lemma_rlt_rle_trans(a, m, rat_one());
    }
}

/// An axis whose two endpoint coordinates both lie inside the slab is
/// entered at or before parameter zero and left at or after parameter one.
proof fn lemma_axis_covers(p1: int, p2: int, hw: int, n: int)
    requires
        0 < hw,
        0 < n,
        -hw <= p1 < hw,
        -hw <= p2 < hw,
        p2 != p1,
    ensures
        rle(axis_entry(p1, p2 - p1, hw, n), rat_zero()),
        rle(rat_one(), axis_exit(p1, p2 - p1, hw, n)),
        axis_entry(p1, p2 - p1, hw, n).d > 0,
        axis_exit(p1, p2 - p1, hw, n).d > 0,
{
    let d = p2 - p1;
    if d > 0 {
        assert(n * d > 0 && (hw * (2 * 0 - n) - n * p1) * 1 <= 0 * (n * d) && 1 * (n * d) <= (hw
            * (2 * n - n) - n * p1) * 1) by (nonlinear_arith)
            requires
                0 < hw,
                0 < n,
                -hw <= p1,
                p1 + d < hw,
                d > 0,
        ;
    } else {
        assert(n * (-d) > 0 && (n * p1 - hw * (2 * n - n)) * 1 <= 0 * (n * (-d)) && 1 * (n * (-d))
            <= (n * p1 - hw * (2 * 0 - n)) * 1) by (nonlinear_arith)
            requires
                0 < hw,
                0 < n,
                p1 < hw,
                -hw <= p1 + d,
                d < 0,
        ;
    }
}

/// For a line of response with both endpoints strictly inside the box, the
/// clipped parameter range is the whole segment: the entry parameter is
/// exactly zero and the exit parameter exactly one.  Together with
/// [`lemma_row_weight_sum`], the widths of such a row sum to exactly one,
/// i.e. the row's total intersection length is the whole segment length.
pub proof fn lemma_interior_full_range(fov: FOV, lor: Lor)
    requires
        fov.wf(),
        fov.contains(lor.p1),
        fov.contains(lor.p2),
    ensures
        req(alpha_in(fov, lor), rat_zero()),
        req(alpha_out(fov, lor), rat_one()),
{
    let (dx, dy, dz) = lor_d(lor);
    let ex = axis_entry_or_zero(lor.p1.x as int, dx, fov.half_width.x as int, fov.n.x as int);
    let ey = axis_entry_or_zero(lor.p1.y as int, dy, fov.half_width.y as int, fov.n.y as int);
    let ez = axis_entry_or_zero(lor.p1.z as int, dz, fov.half_width.z as int, fov.n.z as int);
    let ox = axis_exit_or_one(lor.p1.x as int, dx, fov.half_width.x as int, fov.n.x as int);
    let oy = axis_exit_or_one(lor.p1.y as int, dy, fov.half_width.y as int, fov.n.y as int);
    let oz = axis_exit_or_one(lor.p1.z as int, dz, fov.half_width.z as int, fov.n.z as int);
    if dx != 0 {
        lemma_axis_covers(lor.p1.x as int, lor.p2.x as int, fov.half_width.x as int, fov.n.x as int);
    }
    if dy != 0 {
        lemma_axis_covers(lor.p1.y as int, lor.p2.y as int, fov.half_width.y as int, fov.n.y as int);
    }
    if dz != 0 {
        lemma_axis_covers(lor.p1.z as int, lor.p2.z as int, fov.half_width.z as int, fov.n.z as int);
    }
    lemma_rmax_zero(rat_zero(), ex);
    lemma_rmax_zero(rmax(rat_zero(), ex), ey);
    lemma_rmax_zero(rmax(rmax(rat_zero(), ex), ey), ez);
    lemma_rmin_one(rat_one(), ox);
    lemma_rmin_one(rmin(rat_one(), ox), oy);
    lemma_rmin_one(rmin(rmin(rat_one(), ox), oy), oz);
}


/// One exact fixed-point update of a single voxel crossed by one event
/// (sensitivity one): the new estimate never falls below the old one and
/// never overshoots the corrected measurement.  Iterating therefore climbs
/// monotonically towards the fixed point where the forward projection of
/// the estimate matches the corrected measurement, staying non-negative
/// and bounded throughout.
pub proof fn lemma_single_voxel_step_monotone(e: RowEntry, corr: int, est: int)
    requires
        0 < spec_weight(e),
        0 < est <= corr,
        corr <= CORRECTION_LIMIT,
    ensures
        ({
            let fwd = spec_weight(e) * est;
            let next = spec_new_value(est, spec_delta(e, corr, fwd), FIXED_ONE as int);
            est <= next <= corr
        }),
{
    let w = spec_weight(e);
    let f = FIXED_ONE as int;
    let fwd = w * est;
    assert(fwd > 0) by (nonlinear_arith)
        requires
            w > 0,
            est > 0,
            fwd == w * est,
    ;
    // The common weight factor cancels out of the back-projected ratio:
    // (corr * w * f) / (w * est) == (corr * f) / est.
    let num = corr * w * f;
    assert(num == (corr * f) * w && 0 <= corr * f && 0 < w * est && num >= 0)
        by (nonlinear_arith)
        requires
            0 < w,
            0 < est <= corr,
            num == corr * w * f,
            f == 1048576,
    ;
    vstd::arithmetic::div_mod::lemma_div_denominator(num, w, est);
    assert(num / (w * est) == (num / w) / est);
    vstd::arithmetic::div_mod::lemma_div_by_multiple(corr * f, w);
    assert(((corr * f) * w) / w == corr * f);
    let draw = (corr * f) / est;
    assert(num / fwd == draw);
    // draw is bounded: f <= draw <= corr * f, so no saturation occurs.
    vstd::arithmetic::div_mod::lemma_fundamental_div_mod(corr * f, est);
    vstd::arithmetic::div_mod::lemma_mod_division_less_than_divisor(corr * f, est);
    assert(draw <= corr * f && 0 <= draw) by (nonlinear_arith)
        requires
            corr * f == est * draw + (corr * f) % est,
            0 <= (corr * f) % est < est,
            0 < est,
            0 <= corr * f,
    ;
    assert(est * f <= corr * f) by (nonlinear_arith)
        requires
            est <= corr,
            f > 0,
    ;
    vstd::arithmetic::div_mod::lemma_div_is_ordered(est * f, corr * f, est);
    vstd::arithmetic::div_mod::lemma_div_by_multiple(f, est);
    assert(est * f == f * est) by (nonlinear_arith);
    assert(f <= draw);
    assert(draw <= u64::MAX);
    assert(spec_delta(e, corr, fwd) == draw);
    // The renormalised value is between est and corr.
    let v = (est * draw) / f;
    assert(est * f <= est * draw) by (nonlinear_arith)
        requires
            f <= draw,
            0 < est,
    ;
    vstd::arithmetic::div_mod::lemma_div_is_ordered(est * f, est * draw, f);
    vstd::arithmetic::div_mod::lemma_div_by_multiple(est, f);
    assert((est * f) / f == est);
    assert(est <= v);
    assert(est * draw <= corr * f) by (nonlinear_arith)
        requires
            corr * f == est * draw + (corr * f) % est,
            0 <= (corr * f) % est,
    ;
    vstd::arithmetic::div_mod::lemma_div_is_ordered(est * draw, corr * f, f);
    vstd::arithmetic::div_mod::lemma_div_by_multiple(corr, f);
    assert((corr * f) / f == corr);
    assert(v <= corr);
    assert(v <= u64::MAX);
    assert(spec_new_value(est, spec_delta(e, corr, fwd), f) == v);
}

} // verus!
