//! The field of view: a box of voxels centred on the origin.
//!
//! Positions are `i64` coordinate units.  A field of view with half-width `h`
//! and `n` voxels along an axis splits the interval `[-h, h)` into `n` equal
//! slabs; the voxel containing a position is found by exact integer division,
//! so the position-to-index map is a mathematical function of the inputs.

use vstd::arithmetic::div_mod::{lemma_fundamental_div_mod, lemma_mod_division_less_than_divisor};
use vstd::prelude::*;

use crate::error::Error;
use crate::frac::lemma_mul_bound;

verus! {

/// Largest admissible coordinate magnitude: 2^24 units.
pub const COORD_LIMIT: i64 = 16777216;

/// Largest admissible voxel count along one axis: 2^10.
pub const N_LIMIT: usize = 1024;

/// A position or displacement in coordinate units.
#[derive(Clone, Copy, Debug, PartialEq, Eq, Structural)]
pub struct V3 {
    pub x: i64,
    pub y: i64,
    pub z: i64,
}

/// Per-axis voxel counts.
#[derive(Clone, Copy, Debug, PartialEq, Eq, Structural)]
pub struct N3 {
    pub x: usize,
    pub y: usize,
    pub z: usize,
}

/// The voxel grid: half-extent and voxel count per axis.  Immutable after
/// construction; [`FOV::new`] establishes [`FOV::wf`].
#[derive(Clone, Copy, Debug, PartialEq, Eq, Structural)]
pub struct FOV {
    pub half_width: V3,
    pub n: N3,
}

/// `-hw <= x < hw`: the position lies inside the slab of one axis.
pub open spec fn in_slab(x: int, hw: int) -> bool {
    -hw <= x < hw
}

/// The index of the slab containing `x`, for `x` inside the axis extent.
pub open spec fn slab_index(x: int, hw: int, n: int) -> int {
    ((x + hw) * n) / (2 * hw)
}

impl FOV {
    /// Well-formed: positive half-widths and voxel counts, both within the
    /// grid limits that keep all projector arithmetic exact.
    pub open spec fn wf(self) -> bool {
        &&& 0 < self.half_width.x <= COORD_LIMIT
        &&& 0 < self.half_width.y <= COORD_LIMIT
        &&& 0 < self.half_width.z <= COORD_LIMIT
        &&& 0 < self.n.x <= N_LIMIT
        &&& 0 < self.n.y <= N_LIMIT
        &&& 0 < self.n.z <= N_LIMIT
    }

    /// Total number of voxels.
    pub open spec fn nvox(self) -> int {
        self.n.x * self.n.y * self.n.z
    }

    /// The point lies inside the box (half-open on the upper faces).
    pub open spec fn contains(self, p: V3) -> bool {
        &&& in_slab(p.x as int, self.half_width.x as int)
        &&& in_slab(p.y as int, self.half_width.y as int)
        &&& in_slab(p.z as int, self.half_width.z as int)
    }

    /// Flat index of the voxel `(ix, iy, iz)`: `x` varies fastest, then `y`,
    /// then `z`.  This is the single layout convention of the whole library.
    pub open spec fn flat_index(self, ix: int, iy: int, iz: int) -> int {
        ix + self.n.x * (iy + self.n.y * iz)
    }

    /// The triple of slab indices of a contained point.
    pub open spec fn voxel_of(self, p: V3) -> (int, int, int) {
        (
            slab_index(p.x as int, self.half_width.x as int, self.n.x as int),
            slab_index(p.y as int, self.half_width.y as int, self.n.y as int),
            slab_index(p.z as int, self.half_width.z as int, self.n.z as int),
        )
    }

    /// Build a field of view from a full physical extent and voxel counts.
    /// The extent of each axis must be positive, even (so that the half-width
    /// is exact in coordinate units) and at most `2 * COORD_LIMIT`; each voxel
    /// count must be positive and at most `N_LIMIT`.
    pub fn new(size: V3, n: N3) -> (r: Result<FOV, Error>)
        ensures
            match r {
                Ok(fov) => {
                    &&& fov.wf()
                    &&& fov.n == n
                    &&& fov.half_width.x == size.x / 2
                    &&& fov.half_width.y == size.y / 2
                    &&& fov.half_width.z == size.z / 2
                    &&& size.x % 2 == 0 && size.y % 2 == 0 && size.z % 2 == 0
                    &&& 0 < size.x <= 2 * COORD_LIMIT
                    &&& 0 < size.y <= 2 * COORD_LIMIT
                    &&& 0 < size.z <= 2 * COORD_LIMIT
                },
                Err(Error::InvalidVoxelCount { nx, ny, nz }) => {
                    &&& (nx, ny, nz) == (n.x, n.y, n.z)
                    &&& !(0 < n.x <= N_LIMIT && 0 < n.y <= N_LIMIT && 0 < n.z <= N_LIMIT)
                },
                Err(Error::InvalidFovSize { sx, sy, sz }) => {
                    &&& (sx, sy, sz) == (size.x, size.y, size.z)
                    &&& 0 < n.x <= N_LIMIT && 0 < n.y <= N_LIMIT && 0 < n.z <= N_LIMIT
                    &&& !(0 < size.x <= 2 * COORD_LIMIT && size.x % 2 == 0 && 0 < size.y <= 2
                        * COORD_LIMIT && size.y % 2 == 0 && 0 < size.z <= 2 * COORD_LIMIT
                        && size.z % 2 == 0)
                },
                Err(_) => false,
            },
    {
        if !(0 < n.x && n.x <= N_LIMIT && 0 < n.y && n.y <= N_LIMIT && 0 < n.z && n.z <= N_LIMIT) {
            return Err(Error::InvalidVoxelCount { nx: n.x, ny: n.y, nz: n.z });
        }
        if !(0 < size.x && size.x <= 2 * COORD_LIMIT && size.x % 2 == 0 && 0 < size.y && size.y <= 2
            * COORD_LIMIT && size.y % 2 == 0 && 0 < size.z && size.z <= 2 * COORD_LIMIT && size.z % 2
            == 0) {
            return Err(Error::InvalidFovSize { sx: size.x, sy: size.y, sz: size.z });
        }
        Ok(
            FOV {
                half_width: V3 { x: size.x / 2, y: size.y / 2, z: size.z / 2 },
                n,
            },
        )
    }

    /// Total voxel count as a machine integer.
    pub fn nvoxels(&self) -> (r: usize)
        requires
            self.wf(),
        ensures
            r == self.nvox(),
    {
        proof {
            assert(0 <= self.n.y * self.n.z <= 1048576) by (nonlinear_arith)
                requires
                    0 < self.n.y <= 1024,
                    0 < self.n.z <= 1024,
            ;
        }
        let nyz: usize = self.n.y * self.n.z;
        proof {
            assert(0 <= self.n.x * nyz <= 1073741824 && self.n.x * nyz == self.n.x * self.n.y
                * self.n.z) by (nonlinear_arith)
                requires
                    0 < self.n.x <= 1024,
                    0 <= nyz <= 1048576,
                    nyz == self.n.y * self.n.z,
            ;
        }
        self.n.x * nyz
    }

    /// The flat index of the voxel containing `p`, or `None` when `p` lies
    /// outside the box.  Never panics.
    pub fn voxel_index(&self, p: V3) -> (r: Option<usize>)
        requires
            self.wf(),
            -COORD_LIMIT <= p.x <= COORD_LIMIT,
            -COORD_LIMIT <= p.y <= COORD_LIMIT,
            -COORD_LIMIT <= p.z <= COORD_LIMIT,
        ensures
            r.is_some() <==> self.contains(p),
            r.is_some() ==> {
                let (ix, iy, iz) = self.voxel_of(p);
                &&& r == Some(self.flat_index(ix, iy, iz) as usize)
                &&& 0 <= self.flat_index(ix, iy, iz) < self.nvox()
            },
    {
        let hx = self.half_width.x;
        let hy = self.half_width.y;
        let hz = self.half_width.z;
        if p.x < -hx || p.x >= hx || p.y < -hy || p.y >= hy || p.z < -hz || p.z >= hz {
            return None;
        }
        let ix = slab_index_exec(p.x, hx, self.n.x);
        let iy = slab_index_exec(p.y, hy, self.n.y);
        let iz = slab_index_exec(p.z, hz, self.n.z);
        proof {
            lemma_flat_index_bounds(
                ix as int,
                iy as int,
                iz as int,
                self.n.x as int,
                self.n.y as int,
                self.n.z as int,
            );
            assert(0 <= self.n.y * iz <= 1047552) by (nonlinear_arith)
                requires
                    0 < self.n.y <= 1024,
                    0 <= iz < 1024,
            ;
        }
        let inner: usize = iy + self.n.y * iz;
        proof {
            assert(0 <= self.n.x * inner <= 1073741824) by (nonlinear_arith)
                requires
                    0 < self.n.x <= 1024,
                    0 <= inner <= 1048575,
            ;
            assert(ix + self.n.x * inner == self.flat_index(ix as int, iy as int, iz as int));
        }
        Some(ix + self.n.x * inner)
    }
}

/// Exact slab index of a contained coordinate.
pub fn slab_index_exec(x: i64, hw: i64, n: usize) -> (r: usize)
    requires
        0 < hw <= COORD_LIMIT,
        0 < n <= N_LIMIT,
        in_slab(x as int, hw as int),
    ensures
        r == slab_index(x as int, hw as int, n as int),
        r < n,
{
    proof {
        lemma_mul_bound((x + hw) as int, n as int, 2 * COORD_LIMIT as int, N_LIMIT as int);
        lemma_slab_index_bounds(x as int, hw as int, n as int);
    }
    let num: i64 = (x + hw) * (n as i64);
    let q: i64 = num / (2 * hw);
    proof {
        // Exec division on non-negative operands agrees with Euclidean
        // division of the spec.
        assert(q == ((x + hw) * n) / (2 * hw));
    }
    q as usize
}

/// The slab index of a contained coordinate lies in `[0, n)`, and the
/// coordinate lies between the two bounding planes of that slab.
pub proof fn lemma_slab_index_bounds(x: int, hw: int, n: int)
    requires
        0 < hw,
        0 < n,
        in_slab(x, hw),
    ensures
        0 <= slab_index(x, hw, n) < n,
        hw * (2 * slab_index(x, hw, n) - n) <= x * n,
        x * n < hw * (2 * (slab_index(x, hw, n) + 1) - n),
{
    let d = 2 * hw;
    let num = (x + hw) * n;
    let q = num / d;
    assert(0 <= num < d * n) by (nonlinear_arith)
        requires
            0 <= x + hw < d,
            0 < n,
            num == (x + hw) * n,
    ;
    lemma_fundamental_div_mod(num, d);
    lemma_mod_division_less_than_divisor(num, d);
    assert(0 <= q < n) by (nonlinear_arith)
        requires
            num == d * q + num % d,
            0 <= num % d < d,
            0 <= num < d * n,
            0 < d,
    ;
    assert(hw * (2 * q - n) <= x * n && x * n < hw * (2 * (q + 1) - n)) by (nonlinear_arith)
        requires
            num == d * q + num % d,
            0 <= num % d < d,
            d == 2 * hw,
            num == (x + hw) * n,
            0 < hw,
            0 < n,
    ;
}

/// A triple of in-range slab indices yields a flat index in `[0, nvox)`.
pub proof fn lemma_flat_index_bounds(ix: int, iy: int, iz: int, nx: int, ny: int, nz: int)
    by (nonlinear_arith)
    requires
        0 <= ix < nx,
        0 <= iy < ny,
        0 <= iz < nz,
    ensures
        0 <= ix + nx * (iy + ny * iz) < nx * ny * nz,
{
}

} // verus!
