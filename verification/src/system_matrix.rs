//! System-matrix rows: the exact ray-voxel intersection record of one line
//! of response.
//!
//! The segment from `p1` to `p2` is parametrised by a scalar `t` in `[0, 1]`;
//! every `t` here is an exact rational ([`Frac`]).  A row is an ordered list
//! of entries, one per traversed voxel, each carrying the exact parameter
//! interval `[lo, hi]` the segment spends inside that voxel.  The weight of
//! an entry — the intersection length — is `(hi - lo)` times the segment
//! length, so all weight statements are made on the `t` scale, where they
//! are exact.

use vstd::prelude::*;

use crate::fov::{in_slab, FOV, V3};
use crate::frac::{rat_one, rat_zero, rle, rlt, rmax, rmin, Frac, Rat};
use crate::lor::Lor;

verus! {

/// One row entry: a voxel (by its three grid indices) and the exact
/// parameter interval the segment spends inside it.
#[derive(Clone, Copy, Debug, PartialEq, Eq, Structural)]
pub struct RowEntry {
    pub ix: usize,
    pub iy: usize,
    pub iz: usize,
    pub lo: Frac,
    pub hi: Frac,
}

/// A reusable buffer for one system-matrix row.  The buffer is overwritten,
/// never reallocated, on each projector call, so a worker can reuse one
/// allocation across many lines of response.
pub struct SystemMatrixRow {
    pub entries: Vec<RowEntry>,
}

impl SystemMatrixRow {
    /// An empty row buffer.
    pub fn new() -> (r: SystemMatrixRow)
        ensures
            r.entries@.len() == 0,
    {
        SystemMatrixRow { entries: Vec::new() }
    }

    /// Number of entries.
    pub fn len(&self) -> (r: usize)
        ensures
            r == self.entries@.len(),
    {
        self.entries.len()
    }
}

/// Numerator of the crossing parameter of plane `k` on one axis, normalised
/// so that the denominator [`axis_den`] is positive.  Plane `k` sits at
/// position `hw * (2k - n) / n`; the crossing parameter is the `t` with
/// `p + t * d` on that plane.
pub open spec fn crossing_num(p: int, d: int, hw: int, n: int, k: int) -> int {
    if d > 0 {
        hw * (2 * k - n) - n * p
    } else {
        n * p - hw * (2 * k - n)
    }
}

/// Positive denominator of the crossing parameters of one axis (`d != 0`).
pub open spec fn axis_den(d: int, n: int) -> int {
    if d > 0 {
        n * d
    } else {
        n * (-d)
    }
}

/// The crossing parameter of plane `k` on one axis, as an exact rational.
pub open spec fn crossing(p: int, d: int, hw: int, n: int, k: int) -> Rat {
    Rat { n: crossing_num(p, d, hw, n, k), d: axis_den(d, n) }
}

/// The parameter at which the segment enters the slab of one axis.
pub open spec fn axis_entry(p: int, d: int, hw: int, n: int) -> Rat {
    crossing(p, d, hw, n, if d > 0 { 0 } else { n })
}

/// The parameter at which the segment leaves the slab of one axis.
pub open spec fn axis_exit(p: int, d: int, hw: int, n: int) -> Rat {
    crossing(p, d, hw, n, if d > 0 { n } else { 0 })
}

/// `p + t * d` lies at or above plane `k` (all denominators positive).
pub open spec fn ge_plane(p: int, d: int, hw: int, n: int, k: int, t: Frac) -> bool {
    hw * (2 * k - n) * t.den <= (p * t.den + t.num * d) * n
}

/// `p + t * d` lies at or below plane `k` (all denominators positive).
pub open spec fn le_plane(p: int, d: int, hw: int, n: int, k: int, t: Frac) -> bool {
    (p * t.den + t.num * d) * n <= hw * (2 * k - n) * t.den
}

/// At parameter `t`, the position on this axis lies within slab `i`.
pub open spec fn axis_in_slab_at(p: int, d: int, hw: int, n: int, i: int, t: Frac) -> bool {
    ge_plane(p, d, hw, n, i, t) && le_plane(p, d, hw, n, i + 1, t)
}

/// The per-axis displacements of a line of response.
pub open spec fn lor_d(lor: Lor) -> (int, int, int) {
    (lor.p2.x - lor.p1.x, lor.p2.y - lor.p1.y, lor.p2.z - lor.p1.z)
}

/// The segment is not degenerate for this field of view: the endpoints
/// differ, and every axis the segment does not move along stays inside the
/// axis extent (otherwise the segment cannot meet the box at all).
pub open spec fn lor_nondegenerate(fov: FOV, lor: Lor) -> bool {
    let (dx, dy, dz) = lor_d(lor);
    &&& !(dx == 0 && dy == 0 && dz == 0)
    &&& (dx == 0 ==> in_slab(lor.p1.x as int, fov.half_width.x as int))
    &&& (dy == 0 ==> in_slab(lor.p1.y as int, fov.half_width.y as int))
    &&& (dz == 0 ==> in_slab(lor.p1.z as int, fov.half_width.z as int))
}

/// The entry parameter of one axis, or zero for an axis the segment does
/// not move along.
pub open spec fn axis_entry_or_zero(p: int, d: int, hw: int, n: int) -> Rat {
    if d != 0 {
        axis_entry(p, d, hw, n)
    } else {
        rat_zero()
    }
}

/// The exit parameter of one axis, or one for an axis the segment does not
/// move along.
pub open spec fn axis_exit_or_one(p: int, d: int, hw: int, n: int) -> Rat {
    if d != 0 {
        axis_exit(p, d, hw, n)
    } else {
        rat_one()
    }
}

/// The parameter at which the segment enters the box, clipped to `[0, 1]`.
pub open spec fn alpha_in(fov: FOV, lor: Lor) -> Rat {
    let (dx, dy, dz) = lor_d(lor);
    rmax(
        rmax(
            rmax(
                rat_zero(),
                axis_entry_or_zero(
                    lor.p1.x as int,
                    dx,
                    fov.half_width.x as int,
                    fov.n.x as int,
                ),
            ),
            axis_entry_or_zero(lor.p1.y as int, dy, fov.half_width.y as int, fov.n.y as int),
        ),
        axis_entry_or_zero(lor.p1.z as int, dz, fov.half_width.z as int, fov.n.z as int),
    )
}

/// The parameter at which the segment leaves the box, clipped to `[0, 1]`.
pub open spec fn alpha_out(fov: FOV, lor: Lor) -> Rat {
    let (dx, dy, dz) = lor_d(lor);
    rmin(
        rmin(
            rmin(
                rat_one(),
                axis_exit_or_one(lor.p1.x as int, dx, fov.half_width.x as int, fov.n.x as int),
            ),
            axis_exit_or_one(lor.p1.y as int, dy, fov.half_width.y as int, fov.n.y as int),
        ),
        axis_exit_or_one(lor.p1.z as int, dz, fov.half_width.z as int, fov.n.z as int),
    )
}

/// The segment meets the interior of the box.
pub open spec fn lor_hits(fov: FOV, lor: Lor) -> bool {
    lor_nondegenerate(fov, lor) && rlt(alpha_in(fov, lor), alpha_out(fov, lor))
}

/// The entry's voxel indices are in range and, over the whole interval
/// `[lo, hi]`, the segment stays inside that voxel (by linearity it is
/// enough to pin both interval endpoints between the voxel's planes).
pub open spec fn entry_in_voxel(fov: FOV, lor: Lor, e: RowEntry) -> bool {
    let (dx, dy, dz) = lor_d(lor);
    &&& e.ix < fov.n.x
    &&& e.iy < fov.n.y
    &&& e.iz < fov.n.z
    &&& axis_in_slab_at(lor.p1.x as int, dx, fov.half_width.x as int, fov.n.x as int, e.ix as int, e.lo)
    &&& axis_in_slab_at(lor.p1.x as int, dx, fov.half_width.x as int, fov.n.x as int, e.ix as int, e.hi)
    &&& axis_in_slab_at(lor.p1.y as int, dy, fov.half_width.y as int, fov.n.y as int, e.iy as int, e.lo)
    &&& axis_in_slab_at(lor.p1.y as int, dy, fov.half_width.y as int, fov.n.y as int, e.iy as int, e.hi)
    &&& axis_in_slab_at(lor.p1.z as int, dz, fov.half_width.z as int, fov.n.z as int, e.iz as int, e.lo)
    &&& axis_in_slab_at(lor.p1.z as int, dz, fov.half_width.z as int, fov.n.z as int, e.iz as int, e.hi)
}

/// Voxel `b` is one grid step from voxel `a` along exactly one axis, in the
/// direction the segment moves along that axis.
pub open spec fn vox_step(
    lor: Lor,
    ax: int,
    ay: int,
    az: int,
    bx: int,
    by: int,
    bz: int,
) -> bool {
    let (dx, dy, dz) = lor_d(lor);
    ||| (dx != 0 && bx == ax + (if dx > 0 { 1int } else { -1int }) && by == ay && bz == az)
    ||| (dy != 0 && by == ay + (if dy > 0 { 1int } else { -1int }) && bx == ax && bz == az)
    ||| (dz != 0 && bz == az + (if dz > 0 { 1int } else { -1int }) && bx == ax && by == ay)
}

/// Two consecutive entries differ by exactly one grid step along exactly one
/// axis, in the direction the segment moves along that axis.
pub open spec fn step_adjacent(lor: Lor, a: RowEntry, b: RowEntry) -> bool {
    vox_step(lor, a.ix as int, a.iy as int, a.iz as int, b.ix as int, b.iy as int, b.iz as int)
}

/// The full contract of a computed system-matrix row for `lor` over `fov`:
/// the row is empty exactly when the segment misses the box; otherwise the
/// entry intervals tile `[alpha_in, alpha_out]` in traversal order, each
/// interval's points lie inside its entry's voxel, and consecutive entries
/// are grid neighbours along the traversal direction.
pub open spec fn row_valid(fov: FOV, lor: Lor, s: Seq<RowEntry>) -> bool {
    &&& (s.len() > 0 <==> lor_hits(fov, lor))
    &&& (s.len() > 0 ==> s[0].lo.rat() == alpha_in(fov, lor) && s[s.len() - 1].hi.rat()
        == alpha_out(fov, lor))
    &&& (forall|k: int|
        0 <= k < s.len() ==> {
            &&& (#[trigger] s[k]).lo.wf()
            &&& s[k].hi.wf()
            &&& rle(s[k].lo.rat(), s[k].hi.rat())
            &&& rle(rat_zero(), s[k].lo.rat())
            &&& rle(s[k].hi.rat(), rat_one())
            &&& entry_in_voxel(fov, lor, s[k])
        })
    &&& (forall|k: int| 0 <= k < s.len() - 1 ==> (#[trigger] s[k]).hi == s[k + 1].lo)
    &&& (forall|k: int|
        0 <= k < s.len() - 1 ==> step_adjacent(lor, #[trigger] s[k], s[k + 1]))
}

} // verus!
