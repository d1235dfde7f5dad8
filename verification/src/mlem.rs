//! The MLEM / OSEM reconstruction driver.
//!
//! The driver holds the field of view, the event list, a sensitivity image
//! and the current estimate, and advances one ordered subset per call to
//! [`Osem::step`]: it forward-projects the estimate through every line of
//! response of the subset, accumulates the correction ratios back into an
//! accumulator image, and renormalises the estimate by the sensitivity.
//! The caller drives the loop and may stop after any completed subset.
//!
//! Arithmetic is fixed point: intensities and ratios carry the scale
//! [`FIXED_ONE`], parameter weights the scale [`ALPHA_ONE`]; every rounding
//! step is a plain integer floor division stated exactly in the contracts.

use vstd::prelude::*;

use crate::error::Error;
use crate::fov::{lemma_flat_index_bounds, FOV};
use crate::frac::{rat_one, rat_zero, rle};
use crate::image::{Image, FIXED_ONE};
use crate::laws::lemma_row_len_bound;
use crate::lor::{Lor, CORRECTION_LIMIT};
use crate::siddon::Siddon;
use crate::system_matrix::{entry_in_voxel, row_valid, RowEntry, SystemMatrixRow};

verus! {

/// The fixed-point representation of the parameter weight one: 2^30.
pub const ALPHA_ONE: u64 = 1073741824;

/// Largest possible number of entries in one system-matrix row: a traversal
/// advances one grid index per entry and each of the three indices can take
/// at most 1024 values in each direction.
pub const ROW_LEN_LIMIT: usize = 6145;

/// The fixed-point parameter weight of a row entry: `(hi - lo)`, scaled by
/// [`ALPHA_ONE`] and rounded down.
pub open spec fn spec_weight(e: RowEntry) -> int {
    ((e.hi.num * e.lo.den - e.lo.num * e.hi.den) * ALPHA_ONE) / (e.hi.den * e.lo.den)
}

/// The flat voxel index of a row entry.
pub open spec fn spec_flat(fov: FOV, e: RowEntry) -> int {
    fov.flat_index(e.ix as int, e.iy as int, e.iz as int)
}

/// The facts about a row that the driver arithmetic needs: a length bound,
/// well-formed interval endpoints within `[0, 1]`, and in-range voxel
/// indices.  Every row satisfying [`row_valid`] is usable
/// ([`lemma_row_usable`]).
pub open spec fn row_usable(fov: FOV, s: Seq<RowEntry>) -> bool {
    &&& fov.wf()
    &&& s.len() <= ROW_LEN_LIMIT
    &&& (forall|k: int|
        0 <= k < s.len() ==> {
            &&& (#[trigger] s[k]).lo.wf()
            &&& s[k].hi.wf()
            &&& rle(s[k].lo.rat(), s[k].hi.rat())
            &&& rle(rat_zero(), s[k].lo.rat())
            &&& rle(s[k].hi.rat(), rat_one())
            &&& s[k].ix < fov.n.x
            &&& s[k].iy < fov.n.y
            &&& s[k].iz < fov.n.z
        })
}

/// A computed row is usable by the driver arithmetic.
pub proof fn lemma_row_usable(fov: FOV, lor: Lor, s: Seq<RowEntry>)
    requires
        fov.wf(),
        row_valid(fov, lor, s),
    ensures
        row_usable(fov, s),
{
    lemma_row_len_bound(fov, lor, s);
    assert forall|k: int| 0 <= k < s.len() implies (#[trigger] s[k]).ix < fov.n.x && s[k].iy
        < fov.n.y && s[k].iz < fov.n.z by {
        assert(entry_in_voxel(fov, lor, s[k]));
    }
}

/// Saturating addition on the accumulator scale.
pub open spec fn spec_sat_add(a: int, b: int) -> int {
    if a + b > u64::MAX {
        u64::MAX as int
    } else {
        a + b
    }
}

/// The forward projection of an image through a row: the sum over the
/// row's entries of the entry's fixed-point weight times the voxel value.
pub open spec fn spec_forward(fov: FOV, s: Seq<RowEntry>, data: Seq<u64>) -> int
    decreases s.len(),
{
    if s.len() == 0 {
        0
    } else {
        spec_forward(fov, s.drop_last(), data) + spec_weight(s.last()) * data[spec_flat(
            fov,
            s.last(),
        )]
    }
}

/// The contribution of one entry to the accumulator: the correction ratio
/// divided by the forward value, times the entry weight, on the intensity
/// scale, saturated to `u64`.
pub open spec fn spec_delta(e: RowEntry, corr: int, forward: int) -> int {
    let d = (corr * spec_weight(e) * FIXED_ONE) / forward;
    if d > u64::MAX {
        u64::MAX as int
    } else {
        d
    }
}

/// The accumulator after back-projecting one row with the given correction
/// and forward value.
pub open spec fn spec_accumulate(
    fov: FOV,
    acc: Seq<u64>,
    s: Seq<RowEntry>,
    corr: int,
    forward: int,
) -> Seq<u64>
    decreases s.len(),
{
    if s.len() == 0 {
        acc
    } else {
        let prev = spec_accumulate(fov, acc, s.drop_last(), corr, forward);
        let v = spec_flat(fov, s.last());
        prev.update(v, spec_sat_add(prev[v] as int, spec_delta(s.last(), corr, forward)) as u64)
    }
}

/// The next estimate of one voxel: renormalise by the sensitivity where it
/// is positive, keep the old value where it is zero.
pub open spec fn spec_new_value(est: int, acc: int, sens: int) -> int {
    if sens > 0 {
        let v = (est * acc) / sens;
        if v > u64::MAX {
            u64::MAX as int
        } else {
            v
        }
    } else {
        est
    }
}

/// `x * y <= bx * by` for non-negative bounded factors.
proof fn kernel_mul_le(x: int, y: int, bx: int, by: int)
    by (nonlinear_arith)
    requires
        0 <= x <= bx,
        0 <= y <= by,
    ensures
        0 <= x * y <= bx * by,
{
}

/// Floor division by a positive divisor of a bounded dividend is bounded.
proof fn kernel_div_le(num: int, den: int, cap: int)
    by (nonlinear_arith)
    requires
        0 <= num <= den * cap,
        den > 0,
        cap >= 0,
    ensures
        0 <= num / den <= cap,
{
}

/// The fixed-point weight of one usable entry, exactly [`spec_weight`];
/// at most [`ALPHA_ONE`] because the interval is contained in `[0, 1]`.
pub fn entry_alpha_weight(e: &RowEntry) -> (r: u64)
    requires
        e.lo.wf(),
        e.hi.wf(),
        rle(e.lo.rat(), e.hi.rat()),
        rle(rat_zero(), e.lo.rat()),
        rle(e.hi.rat(), rat_one()),
    ensures
        r == spec_weight(*e),
        r <= ALPHA_ONE,
{
    let hn = e.hi.num as i128;
    let hd = e.hi.den as i128;
    let ln = e.lo.num as i128;
    let ld = e.lo.den as i128;
    proof {
        crate::frac::lemma_mul_bound(
            e.hi.num as int,
            e.lo.den as int,
            crate::frac::FRAC_BOUND as int,
            crate::frac::FRAC_BOUND as int,
        );
        crate::frac::lemma_mul_bound(
            e.lo.num as int,
            e.hi.den as int,
            crate::frac::FRAC_BOUND as int,
            crate::frac::FRAC_BOUND as int,
        );
        crate::frac::lemma_mul_bound(
            e.hi.den as int,
            e.lo.den as int,
            crate::frac::FRAC_BOUND as int,
            crate::frac::FRAC_BOUND as int,
        );
        assert(e.hi.rat().n * 1 <= 1 * e.hi.rat().d);
        assert(e.hi.num <= e.hi.den);
        assert(0 * e.lo.rat().d <= e.lo.rat().n * 1);
        assert(0 <= e.lo.num);
        // 0 <= hi - lo <= 1 over the common denominator.
        assert(0 <= hn * ld - ln * hd) by (nonlinear_arith)
            requires
                e.lo.num * e.hi.den <= e.hi.num * e.lo.den,
                hn == e.hi.num && hd == e.hi.den && ln == e.lo.num && ld == e.lo.den,
        ;
        assert(hn * ld - ln * hd <= hd * ld) by (nonlinear_arith)
            requires
                e.hi.num <= e.hi.den,
                0 <= e.lo.num,
                e.lo.den > 0,
                e.hi.den > 0,
                hn == e.hi.num && hd == e.hi.den && ln == e.lo.num && ld == e.lo.den,
        ;
        assert(hd * ld > 0) by (nonlinear_arith)
            requires
                hd > 0,
                ld > 0,
        ;
        kernel_mul_le(
            hn * ld - ln * hd,
            ALPHA_ONE as int,
            hd * ld,
            ALPHA_ONE as int,
        );
        kernel_div_le((hn * ld - ln * hd) * ALPHA_ONE, hd * ld, ALPHA_ONE as int);
    }
    let num: i128 = (hn * ld - ln * hd) * (ALPHA_ONE as i128);
    let den: i128 = hd * ld;
    let q: u128 = (num as u128) / (den as u128);
    q as u64
}

/// Forward-project an image through one row: the exact fixed-point sum
/// `sum over entries of weight * value`.  On a uniform image this is the
/// image value times the sum of the row's weights, i.e. the row's total
/// intersection length on the parameter scale.
pub fn forward_project(row: &SystemMatrixRow, img: &Image) -> (r: u128)
    requires
        img.wf(),
        row_usable(img.fov, row.entries@),
    ensures
        r == spec_forward(img.fov, row.entries@, img.data@),
{
    let ghost s = row.entries@;
    let mut total: u128 = 0;
    let mut j: usize = 0;
    let n = row.entries.len();
    while j < n
        invariant
            img.wf(),
            row_usable(img.fov, s),
            s == row.entries@,
            n == s.len(),
            0 <= j <= n,
            total == spec_forward(img.fov, s.take(j as int), img.data@),
            total <= j * (ALPHA_ONE * u64::MAX),
        decreases n - j,
    {
        let e = row.entries[j];
        let w = entry_alpha_weight(&e);
        proof {
            lemma_flat_index_bounds(
                e.ix as int,
                e.iy as int,
                e.iz as int,
                img.fov.n.x as int,
                img.fov.n.y as int,
                img.fov.n.z as int,
            );
        }
        proof {
            assert(0 <= img.fov.n.y * e.iz && e.iy + img.fov.n.y * e.iz <= 1048576 && 0
                <= img.fov.n.x * (e.iy + img.fov.n.y * e.iz) <= 1073741824) by (nonlinear_arith)
                requires
                    0 <= e.ix < img.fov.n.x <= 1024,
                    0 <= e.iy < img.fov.n.y <= 1024,
                    0 <= e.iz < img.fov.n.z <= 1024,
            ;
        }
        let v = e.ix + img.fov.n.x * (e.iy + img.fov.n.y * e.iz);
        proof {
            assert(v == spec_flat(img.fov, e));
        }
        let val = img.data[v];
        proof {
            kernel_mul_le(w as int, val as int, ALPHA_ONE as int, u64::MAX as int);
            assert((j + 1) * (ALPHA_ONE * u64::MAX) == j * (ALPHA_ONE * u64::MAX) + (ALPHA_ONE
                * u64::MAX)) by (nonlinear_arith);
            assert(s.take(j + 1).drop_last() == s.take(j as int));
            assert(s.take(j + 1).last() == s[j as int]);
            assert(j * (ALPHA_ONE * u64::MAX) <= 6145 * (ALPHA_ONE * u64::MAX))
                by (nonlinear_arith)
                requires
                    0 <= j <= 6145,
            ;
        }
        total = total + (w as u128) * (val as u128);
        j = j + 1;
    }
    proof {
        assert(s.take(n as int) == s);
    }
    total
}

/// Back-project one row into the accumulator: every voxel of the row
/// receives `corr * weight * FIXED_ONE / forward`, saturated, added on to
/// its accumulator cell (saturated).
pub fn accumulate(acc: &mut Vec<u64>, fov: &FOV, row: &SystemMatrixRow, corr: u64, forward: u128)
    requires
        fov.wf(),
        row_usable(*fov, row.entries@),
        corr <= CORRECTION_LIMIT,
        forward > 0,
        old(acc)@.len() == fov.nvox(),
    ensures
        final (acc)@ == spec_accumulate(
            *fov,
            old(acc)@,
            row.entries@,
            corr as int,
            forward as int,
        ),
        final (acc)@.len() == old(acc)@.len(),
{
    let ghost s = row.entries@;
    let ghost acc0 = acc@;
    let mut j: usize = 0;
    let n = row.entries.len();
    while j < n
        invariant
            fov.wf(),
            row_usable(*fov, s),
            s == row.entries@,
            n == s.len(),
            0 <= j <= n,
            corr <= CORRECTION_LIMIT,
            forward > 0,
            acc0.len() == fov.nvox(),
            acc@ == spec_accumulate(*fov, acc0, s.take(j as int), corr as int, forward as int),
            acc@.len() == acc0.len(),
        decreases n - j,
    {
        let e = row.entries[j];
        let w = entry_alpha_weight(&e);
        proof {
            lemma_flat_index_bounds(
                e.ix as int,
                e.iy as int,
                e.iz as int,
                fov.n.x as int,
                fov.n.y as int,
                fov.n.z as int,
            );
            assert(0 <= fov.n.y * e.iz && e.iy + fov.n.y * e.iz <= 1048576 && 0 <= fov.n.x * (e.iy
                + fov.n.y * e.iz) <= 1073741824) by (nonlinear_arith)
                requires
                    0 <= e.ix < fov.n.x <= 1024,
                    0 <= e.iy < fov.n.y <= 1024,
                    0 <= e.iz < fov.n.z <= 1024,
            ;
        }
        let v = e.ix + fov.n.x * (e.iy + fov.n.y * e.iz);
        proof {
            assert(v == spec_flat(*fov, e));
            assert(v < fov.nvox());
            kernel_mul_le(corr as int, w as int, CORRECTION_LIMIT as int, ALPHA_ONE as int);
            kernel_mul_le(
                corr as int * w as int,
                FIXED_ONE as int,
                CORRECTION_LIMIT as int * ALPHA_ONE as int,
                FIXED_ONE as int,
            );
        }
        let num: u128 = (corr as u128) * (w as u128) * (FIXED_ONE as u128);
        let d: u128 = num / forward;
        let delta: u64 = if d > u64::MAX as u128 {
            u64::MAX
        } else {
            d as u64
        };
        let cell = acc[v];
        let updated: u64 = if cell > u64::MAX - delta {
            u64::MAX
        } else {
            cell + delta
        };
        acc.set(v, updated);
        proof {
            assert(s.take(j + 1).drop_last() == s.take(j as int));
            assert(s.take(j + 1).last() == s[j as int]);
            assert(delta == spec_delta(e, corr as int, forward as int));
            assert(updated == spec_sat_add(cell as int, delta as int));
        }
        j = j + 1;
    }
    proof {
        assert(s.take(n as int) == s);
    }
}

/// Renormalise the estimate by the accumulator and the sensitivity: where
/// the sensitivity is positive the new value is `est * acc / sens`
/// (saturated); where it is zero the voxel is left unchanged, never
/// divided.
pub fn update_estimate(est: &mut Vec<u64>, acc: &Vec<u64>, sens: &Vec<u64>)
    requires
        old(est)@.len() == acc@.len(),
        old(est)@.len() == sens@.len(),
    ensures
        final (est)@.len() == old(est)@.len(),
        forall|v: int|
            0 <= v < old(est)@.len() ==> final (est)@[v] == spec_new_value(
                old(est)@[v] as int,
                acc@[v] as int,
                sens@[v] as int,
            ),
{
    let n = est.len();
    let mut v: usize = 0;
    while v < n
        invariant
            n == est@.len(),
            n == old(est)@.len(),
            n == acc@.len(),
            n == sens@.len(),
            0 <= v <= n,
            forall|k: int| v <= k < n ==> est@[k] == old(est)@[k],
            forall|k: int|
                0 <= k < v ==> est@[k] == spec_new_value(
                    old(est)@[k] as int,
                    acc@[k] as int,
                    sens@[k] as int,
                ),
        decreases n - v,
    {
        let s = sens[v];
        if s > 0 {
            proof {
                kernel_mul_le(est@[v as int] as int, acc@[v as int] as int, u64::MAX as int, u64::MAX as int);
            }
            let prod: u128 = (est[v] as u128) * (acc[v] as u128);
            let q: u128 = prod / (s as u128);
            let nv: u64 = if q > u64::MAX as u128 {
                u64::MAX
            } else {
                q as u64
            };
            est.set(v, nv);
        }
        v = v + 1;
    }
}

/// The strided subset partition: subset `subset` of `subsets` owns the
/// event indices `subset, subset + subsets, subset + 2 * subsets, ...`.
/// The partition is fixed once and never reshuffled, so every subset sees
/// the same events on every iteration.
pub fn subset_indices(len: usize, subsets: usize, subset: usize) -> (r: Vec<usize>)
    requires
        0 < subsets,
        subset < subsets,
    ensures
        forall|j: int| 0 <= j < r@.len() ==> #[trigger] r@[j] == subset + j * subsets,
        forall|j: int| 0 <= j < r@.len() ==> #[trigger] r@[j] < len,
        subset + r@.len() * subsets >= len,
{
    let mut r: Vec<usize> = Vec::new();
    let mut i: usize = subset;
    proof {
        assert((r@.len() as int) * (subsets as int) == 0) by (nonlinear_arith)
            requires
                r@.len() == 0,
        ;
    }
    while i < len
        invariant
            0 < subsets,
            subset < subsets,
            i as int == subset + r@.len() * subsets || (i == len && subset + r@.len()
                * subsets >= len),
            forall|j: int| 0 <= j < r@.len() ==> #[trigger] r@[j] == subset + j * subsets,
            forall|j: int| 0 <= j < r@.len() ==> #[trigger] r@[j] < len,
        decreases len - i,
    {
        r.push(i);
        proof {
            assert((r@.len() as int) * subsets == (r@.len() - 1) * subsets + subsets)
                by (nonlinear_arith);
        }
        let next: u128 = (i as u128) + (subsets as u128);
        i = if next >= len as u128 {
            len
        } else {
            next as usize
        };
    }
    r
}

/// With a single subset the strided partition is the identity: subset zero
/// of one owns every event index, in order.  This is why an ordered-subsets
/// step with `subsets = 1` is exactly a plain MLEM update.
pub proof fn lemma_single_subset_is_identity(r: Seq<usize>, len: usize)
    requires
        forall|j: int| 0 <= j < r.len() ==> #[trigger] r[j] == 0 + j * 1,
        forall|j: int| 0 <= j < r.len() ==> #[trigger] r[j] < len,
        0 + r.len() * 1 >= len,
    ensures
        r.len() == len,
        forall|j: int| 0 <= j < r.len() ==> #[trigger] r[j] == j,
{
    assert forall|j: int| 0 <= j < r.len() implies #[trigger] r[j] == j by {
        assert(r[j] == 0 + j * 1);
        assert(j * 1 == j) by (nonlinear_arith);
    }
    assert(r.len() * 1 == r.len()) by (nonlinear_arith);
    if r.len() > len {
        let j = len as int;
        assert(r[j] == 0 + j * 1);
        assert(j * 1 == j) by (nonlinear_arith);
    }
}

/// The accumulator and skip count after back-projecting the first `j`
/// events of one ordered subset — the events at indices `subset`,
/// `subset + subsets`, `subset + 2 * subsets`, ... — each through its row
/// in `rows`, against the frozen estimate `est`.  An event whose forward
/// projection is zero leaves the accumulator alone and advances the skip
/// count (saturating); every other event adds its back-projected
/// correction ratios.
pub open spec fn spec_process(
    fov: FOV,
    lors: Seq<Lor>,
    subset: int,
    subsets: int,
    rows: Seq<Seq<RowEntry>>,
    est: Seq<u64>,
    acc0: Seq<u64>,
    skipped0: int,
    j: int,
) -> (Seq<u64>, int)
    decreases j,
{
    if j <= 0 {
        (acc0, skipped0)
    } else {
        let prev = spec_process(fov, lors, subset, subsets, rows, est, acc0, skipped0, j - 1);
        let lor = lors[subset + (j - 1) * subsets];
        let row = rows[j - 1];
        let fwd = spec_forward(fov, row, est);
        if fwd == 0 {
            (
                prev.0,
                if prev.1 == u64::MAX {
                    prev.1
                } else {
                    prev.1 + 1
                },
            )
        } else {
            (spec_accumulate(fov, prev.0, row, lor.additive_correction as int, fwd), prev.1)
        }
    }
}

/// Processing the first `j` events only reads the first `j` rows.
proof fn lemma_process_prefix(
    fov: FOV,
    lors: Seq<Lor>,
    subset: int,
    subsets: int,
    rows1: Seq<Seq<RowEntry>>,
    rows2: Seq<Seq<RowEntry>>,
    est: Seq<u64>,
    acc0: Seq<u64>,
    skipped0: int,
    j: int,
)
    requires
        forall|k: int| 0 <= k < j ==> #[trigger] rows1[k] == rows2[k],
    ensures
        spec_process(fov, lors, subset, subsets, rows1, est, acc0, skipped0, j) == spec_process(
            fov,
            lors,
            subset,
            subsets,
            rows2,
            est,
            acc0,
            skipped0,
            j,
        ),
    decreases j,
{
    if j > 0 {
        lemma_process_prefix(fov, lors, subset, subsets, rows1, rows2, est, acc0, skipped0, j - 1);
    }
}

/// The ordered-subsets iteration state and data: advances one subset per
/// [`Osem::step`].  MLEM is the special case `subsets = 1`.
pub struct Osem {
    /// The reconstruction grid.
    pub fov: FOV,
    /// The measured lines of response, fixed for the whole run.
    pub lors: Vec<Lor>,
    /// The per-voxel sensitivity (uniform one when none was supplied).
    pub sensitivity: Image,
    /// The current estimate, replaced wholesale at each subset boundary.
    pub estimate: Image,
    /// Number of ordered subsets.
    pub subsets: usize,
    /// Completed outer iterations.
    pub iteration: usize,
    /// The next subset to process.
    pub subset: usize,
    /// Diagnostic count of events skipped for a non-positive forward
    /// projection; never an error.
    pub skipped: u64,
    pub row: SystemMatrixRow,
    /// The system-matrix rows of the last processed subset, kept as ghost
    /// state so that [`Osem::step`] can state its exact effect.
    pub last_rows: Ghost<Seq<Seq<RowEntry>>>,
}

impl Osem {
    /// The driver invariant.
    pub open spec fn wf(self) -> bool {
        &&& self.fov.wf()
        &&& self.estimate.wf()
        &&& self.estimate.fov == self.fov
        &&& self.sensitivity.wf()
        &&& self.sensitivity.fov == self.fov
        &&& 0 < self.subsets
        &&& self.subset < self.subsets
        &&& (forall|j: int| 0 <= j < self.lors@.len() ==> (#[trigger] self.lors@[j]).wf())
    }

    /// Set up a reconstruction: validate the configuration, check the
    /// sensitivity image against the field of view, and start from a
    /// uniform estimate.  All fatal checks happen here, before any
    /// iteration work.
    pub fn new(fov: FOV, lors: Vec<Lor>, sensitivity: Option<Image>, subsets: usize) -> (r: Result<
        Osem,
        Error,
    >)
        requires
            fov.wf(),
            forall|j: int| 0 <= j < lors@.len() ==> (#[trigger] lors@[j]).wf(),
        ensures
            match r {
                Ok(o) => {
                    &&& o.wf()
                    &&& o.fov == fov
                    &&& o.lors@ == lors@
                    &&& o.subsets == subsets
                    &&& o.iteration == 0
                    &&& o.subset == 0
                    &&& o.skipped == 0
                    &&& subsets > 0
                    &&& (forall|v: int|
                        0 <= v < o.estimate.data@.len() ==> o.estimate.data@[v] == FIXED_ONE)
                    &&& match sensitivity {
                        Some(s) => o.sensitivity == s && s.fov == fov && s.data@.len()
                            == fov.nvox(),
                        None => forall|v: int|
                            0 <= v < o.sensitivity.data@.len() ==> o.sensitivity.data@[v]
                                == FIXED_ONE,
                    }
                },
                Err(Error::NoSubsets) => subsets == 0,
                Err(Error::SensitivityMismatch { expected, actual }) => {
                    &&& subsets > 0
                    &&& match sensitivity {
                        Some(s) => (s.fov != fov || s.data@.len() != fov.nvox()) && expected
                            == fov.nvox() && actual == s.data@.len(),
                        None => false,
                    }
                },
                Err(_) => false,
            },
    {
        if subsets == 0 {
            return Err(Error::NoSubsets);
        }
        let sens: Image = match sensitivity {
            Some(s) => {
                if !(s.fov == fov) || s.data.len() != fov.nvoxels() {
                    return Err(
                        Error::SensitivityMismatch { expected: fov.nvoxels(), actual: s.data.len() },
                    );
                }
                s
            },
            None => Image::ones(fov),
        };
        Ok(
            Osem {
                fov,
                lors,
                sensitivity: sens,
                estimate: Image::ones(fov),
                subsets,
                iteration: 0,
                subset: 0,
                skipped: 0,
                row: SystemMatrixRow::new(),
                last_rows: Ghost(Seq::empty()),
            },
        )
    }

    /// Process one ordered subset: forward-project the current estimate
    /// through each of the subset's events, skip events with a
    /// non-positive forward projection (counting them), back-project the
    /// correction ratios, and renormalise by the sensitivity.  Voxels with
    /// zero sensitivity are never changed.  Advances the subset counter,
    /// wrapping into the next iteration.
    pub fn step(&mut self)
        requires
            old(self).wf(),
            old(self).iteration < usize::MAX,
        ensures
            final (self).wf(),
            final (self).fov == old(self).fov,
            final (self).lors@ == old(self).lors@,
            final (self).sensitivity == old(self).sensitivity,
            final (self).subsets == old(self).subsets,
            final (self).skipped >= old(self).skipped,
            final (self).estimate.data@.len() == old(self).estimate.data@.len(),
            if old(self).subset + 1 == old(self).subsets {
                final (self).subset == 0 && final (self).iteration == old(self).iteration + 1
            } else {
                final (self).subset == old(self).subset + 1 && final (self).iteration == old(
                    self,
                ).iteration
            },
            forall|v: int|
                0 <= v < old(self).estimate.data@.len() ==> (old(self).sensitivity.data@[v] == 0
                    ==> final (self).estimate.data@[v] == old(self).estimate.data@[v]),
            ({
                let rows = final (self).last_rows@;
                let m = rows.len() as int;
                let subset = old(self).subset as int;
                let subsets = old(self).subsets as int;
                let lors = old(self).lors@;
                &&& subset + m * subsets >= lors.len()
                &&& (forall|k: int| 0 <= k < m ==> subset + #[trigger] (k * subsets) < lors.len())
                &&& (forall|k: int|
                    0 <= k < m ==> row_valid(
                        old(self).fov,
                        lors[subset + k * subsets],
                        #[trigger] rows[k],
                    ))
                &&& ({
                    let pr = spec_process(
                        old(self).fov,
                        lors,
                        subset,
                        subsets,
                        rows,
                        old(self).estimate.data@,
                        Seq::new(old(self).estimate.data@.len(), |i: int| 0u64),
                        old(self).skipped as int,
                        m,
                    );
                    &&& final (self).skipped == pr.1
                    &&& (forall|v: int|
                        0 <= v < old(self).estimate.data@.len()
                            ==> final (self).estimate.data@[v] == spec_new_value(
                            old(self).estimate.data@[v] as int,
                            pr.0[v] as int,
                            old(self).sensitivity.data@[v] as int,
                        ))
                })
            }),
    {
        let nvox = self.estimate.data.len();
        let mut acc: Vec<u64> = Vec::new();
        let mut k: usize = 0;
        while k < nvox
            invariant
                k == acc@.len() <= nvox,
                forall|v: int| 0 <= v < k ==> acc@[v] == 0u64,
            decreases nvox - k,
        {
            acc.push(0);
            k = k + 1;
        }
        proof {
            assert(acc@ =~= Seq::new(old(self).estimate.data@.len(), |i: int| 0u64));
        }
        let ghost zeros = acc@;
        let indices = subset_indices(self.lors.len(), self.subsets, self.subset);
        let m = indices.len();
        let mut j: usize = 0;
        let ghost mut rows_g: Seq<Seq<RowEntry>> = Seq::empty();
        while j < m
            invariant
                self.fov == old(self).fov,
                self.lors@ == old(self).lors@,
                self.sensitivity == old(self).sensitivity,
                self.estimate == old(self).estimate,
                self.subsets == old(self).subsets,
                self.subset == old(self).subset,
                self.iteration == old(self).iteration,
                self.skipped >= old(self).skipped,
                old(self).wf(),
                self.wf(),
                m == indices@.len(),
                forall|i: int| 0 <= i < indices@.len() ==> #[trigger] indices@[i]
                    < self.lors@.len(),
                forall|i: int| 0 <= i < indices@.len() ==> #[trigger] indices@[i] == old(
                    self,
                ).subset + i * old(self).subsets,
                acc@.len() == self.fov.nvox(),
                nvox == self.estimate.data@.len(),
                rows_g.len() == j <= m,
                forall|k: int|
                    0 <= k < j ==> row_valid(
                        old(self).fov,
                        old(self).lors@[old(self).subset + k * old(self).subsets],
                        #[trigger] rows_g[k],
                    ),
                (acc@, self.skipped as int) == spec_process(
                    old(self).fov,
                    old(self).lors@,
                    old(self).subset as int,
                    old(self).subsets as int,
                    rows_g,
                    old(self).estimate.data@,
                    zeros,
                    old(self).skipped as int,
                    j as int,
                ),
                zeros == Seq::new(old(self).estimate.data@.len(), |i: int| 0u64),
            decreases m - j,
        {
            let idx = indices[j];
            let lor = self.lors[idx];
            Siddon::compute_row(&self.fov, &lor, &mut self.row);
            proof {
                lemma_row_usable(self.fov, lor, self.row.entries@);
                lemma_process_prefix(
                    old(self).fov,
                    old(self).lors@,
                    old(self).subset as int,
                    old(self).subsets as int,
                    rows_g,
                    rows_g.push(self.row.entries@),
                    old(self).estimate.data@,
                    zeros,
                    old(self).skipped as int,
                    j as int,
                );
                rows_g = rows_g.push(self.row.entries@);
            }
            let forward = forward_project(&self.row, &self.estimate);
            if forward == 0 {
                self.skipped = if self.skipped < u64::MAX {
                    self.skipped + 1
                } else {
                    self.skipped
                };
            } else {
                accumulate(&mut acc, &self.fov, &self.row, lor.additive_correction, forward);
            }
            j = j + 1;
        }
        proof {
            self.last_rows@ = rows_g;
            assert forall|k: int|
                0 <= k < rows_g.len() implies old(self).subset + #[trigger] (k * old(
                self,
            ).subsets) < old(self).lors@.len() by {
                assert(indices@[k] == old(self).subset + k * old(self).subsets);
                assert(indices@[k] < old(self).lors@.len());
            }
        }
        update_estimate(&mut self.estimate.data, &acc, &self.sensitivity.data);
        if self.subset + 1 == self.subsets {
            self.subset = 0;
            self.iteration = self.iteration + 1;
        } else {
            self.subset = self.subset + 1;
        }
    }
}

} // verus!
