//! Fatal configuration errors.
//!
//! Recoverable per-event conditions (a degenerate line of response, a ray that
//! misses the field of view, a non-positive forward projection) are never
//! reported through this type: they only advance a diagnostic counter in the
//! reconstruction driver.

use vstd::prelude::*;

verus! {

/// A fatal error, raised before or instead of any partial work.
#[derive(Clone, Copy, Debug, PartialEq, Eq, Structural)]
pub enum Error {
    /// A voxel count of zero, or one beyond the supported grid resolution.
    InvalidVoxelCount { nx: usize, ny: usize, nz: usize },
    /// A non-positive, odd, or oversized physical extent.
    InvalidFovSize { sx: i64, sy: i64, sz: i64 },
    /// A voxel data array whose length does not match the field of view.
    ImageLengthMismatch { expected: usize, actual: usize },
    /// A sensitivity image whose voxel count does not match the
    /// reconstruction's field of view.
    SensitivityMismatch { expected: usize, actual: usize },
    /// A reconstruction configured with zero ordered subsets.
    NoSubsets,
    /// A random prompt handed to the scatter histogram, which only accepts
    /// true and scattered coincidences.
    RandomPromptUnsupported,
}

} // verus!
