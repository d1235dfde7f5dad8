//! Reconstruction configuration: plain validated values.
//!
//! Parsing a configuration file is an outside concern; the library receives
//! the parsed values in these types and validates them.  Lengths are
//! coordinate units, times are time units, ratios are fixed point with
//! [`FIXED_ONE`] meaning one.

use vstd::prelude::*;

use crate::error::Error;
use crate::fov::{N3, V3};
use crate::image::FIXED_ONE;

verus! {

/// Command-line arguments of the reconstruction program.
#[derive(Clone, Debug)]
pub struct Cli {
    /// Reconstruction config file.
    pub config_file: String,
    /// Directory in which results should be written.
    pub output_directory: String,
    /// Maximum number of worker threads used by the reconstruction.
    pub mlem_threads: usize,
    /// Worker threads for filling the scattergram (defaults to
    /// `mlem_threads`).
    pub scattergram_threads: Option<usize>,
}

/// Specification of the data used to reconstruct the image.
#[derive(Clone, Debug)]
pub struct Input {
    /// File containing the measured lines of response.
    pub file: String,
    /// The dataset location inside the input file.
    pub dataset: String,
}

/// Number of iterations and ordered subsets to use in reconstruction.
#[derive(Clone, Copy, Debug, PartialEq, Eq, Structural)]
pub struct Iterations {
    /// Number of outer iterations to perform.
    pub number: usize,
    /// Number of ordered subsets; plain MLEM uses one.
    pub subsets: usize,
}

/// Field-of-view geometry: voxel counts and physical extent.
#[derive(Clone, Copy, Debug)]
pub struct Fov {
    pub nvoxels: (usize, usize, usize),
    pub size: (i64, i64, i64),
}

impl Fov {
    /// The voxel counts are positive and within the grid limit.
    pub open spec fn counts_ok(self) -> bool {
        &&& 0 < self.nvoxels.0 <= crate::fov::N_LIMIT
        &&& 0 < self.nvoxels.1 <= crate::fov::N_LIMIT
        &&& 0 < self.nvoxels.2 <= crate::fov::N_LIMIT
    }

    /// The physical extents are positive, even and within the coordinate
    /// limit.
    pub open spec fn size_ok(self) -> bool {
        &&& 0 < self.size.0 <= 2 * crate::fov::COORD_LIMIT && self.size.0 % 2 == 0
        &&& 0 < self.size.1 <= 2 * crate::fov::COORD_LIMIT && self.size.1 % 2 == 0
        &&& 0 < self.size.2 <= 2 * crate::fov::COORD_LIMIT && self.size.2 % 2 == 0
    }

    /// Build the validated voxel grid these values describe.
    pub fn build(&self) -> (r: Result<crate::fov::FOV, Error>)
        ensures
            r.is_ok() <==> self.counts_ok() && self.size_ok(),
            match r {
                Ok(fov) => {
                    &&& fov.wf()
                    &&& fov.n == (N3 {
                        x: self.nvoxels.0,
                        y: self.nvoxels.1,
                        z: self.nvoxels.2,
                    })
                    &&& fov.half_width.x == self.size.0 / 2
                    &&& fov.half_width.y == self.size.1 / 2
                    &&& fov.half_width.z == self.size.2 / 2
                },
                Err(e) => e matches Error::InvalidVoxelCount { .. } || e
                    matches Error::InvalidFovSize { .. },
            },
    {
        crate::fov::FOV::new(
            V3 { x: self.size.0, y: self.size.1, z: self.size.2 },
            N3 { x: self.nvoxels.0, y: self.nvoxels.1, z: self.nvoxels.2 },
        )
    }
}

/// Time-of-flight parameters.
#[derive(Clone, Copy, Debug, PartialEq, Eq, Structural)]
pub struct Tof {
    /// Timing resolution, in time units.
    pub sigma: i64,
    /// Kernel cutoff in multiples of sigma, fixed point.
    pub cutoff: u64,
}

/// The default time-of-flight cutoff: three sigmas.
pub fn three() -> (r: u64)
    ensures
        r == 3 * FIXED_ONE,
{
    3 * FIXED_ONE
}

/// Scattergram axis granularities; absent axes are left out of the table.
#[derive(Clone, Copy, Debug, PartialEq, Eq, Structural)]
pub struct Scatter {
    pub phi: Option<Bins>,
    pub r: Option<BinsMax<i64>>,
    pub dz: Option<BinsMax<i64>>,
    pub dt: Option<BinsMax<i64>>,
    pub z: Option<BinsLength>,
}

/// A bare bin count.
#[derive(Clone, Copy, Debug, PartialEq, Eq, Structural)]
pub struct Bins {
    pub bins: usize,
}

/// A bin count with an upper feature bound.
#[derive(Clone, Copy, Debug, PartialEq, Eq, Structural)]
pub struct BinsMax<T> {
    pub bins: usize,
    pub max: T,
}

/// A bin count with a covered axial length.
#[derive(Clone, Copy, Debug, PartialEq, Eq, Structural)]
pub struct BinsLength {
    pub bins: usize,
    pub length: i64,
}

/// The whole reconstruction configuration.
#[derive(Clone, Debug)]
pub struct Config {
    /// Data to be used to reconstruct the image.
    pub input: Input,
    /// Iteration and subset counts.
    pub iterations: Iterations,
    /// Field-of-view geometry.
    pub fov: Fov,
    /// Time-of-flight parameters, when timing is to be used.
    pub tof: Option<Tof>,
    /// Scattergram granularities, when scatter correction is to be used.
    pub scatter_correction: Option<Scatter>,
}

/// The default subset count: plain MLEM.
pub fn default_subsets() -> (r: usize)
    ensures
        r == 1,
{
    1
}

/// Stand-in for a missing mandatory field: the type's default value.
pub fn mandatory<T: Default>() -> T {
    T::default()
}

/// Transpose a 3-tuple of results: `Ok` of the triple when all three are
/// `Ok`; otherwise the first error in order.
pub fn tr_tup_res<O, E>(t: (Result<O, E>, Result<O, E>, Result<O, E>)) -> (r: Result<(O, O, O), E>)
    ensures
        match t {
            (Ok(a), Ok(b), Ok(c)) => r == Ok::<(O, O, O), E>((a, b, c)),
            (Err(e), _, _) => r == Err::<(O, O, O), E>(e),
            (Ok(_), Err(e), _) => r == Err::<(O, O, O), E>(e),
            (Ok(_), Ok(_), Err(e)) => r == Err::<(O, O, O), E>(e),
        },
{
    match t {
        (Ok(a), Ok(b), Ok(c)) => Ok((a, b, c)),
        (Err(e), _, _) => Err(e),
        (_, Err(e), _) => Err(e),
        (_, _, Err(e)) => Err(e),
    }
}

} // verus!
