//! Abstract interface for forward-backward projection implementations.
//!
//! A projector strategy provides a reusable row buffer for a field of view
//! and fills it with the system-matrix row of one line of response.  The
//! strategy is selected at construction time by the caller; every
//! implementation must meet the exact geometric contract [`row_valid`].

use vstd::prelude::*;

use crate::fov::FOV;
use crate::lor::Lor;
use crate::siddon::Siddon;
use crate::system_matrix::{row_valid, SystemMatrixRow};

verus! {

/// A forward/backward projection strategy.
pub trait Projector {
    /// Allocate the reusable row buffer for this field of view.  Buffers
    /// are created up front and reused, never reallocated per event.
    fn buffers(fov: &FOV) -> (r: SystemMatrixRow)
        requires
            fov.wf(),
        ensures
            r.entries@.len() == 0,
    ;

    /// Overwrite `row` with the system-matrix row of `lor`.
    fn project_one_lor(fov: &FOV, lor: &Lor, row: &mut SystemMatrixRow)
        requires
            fov.wf(),
            lor.wf(),
        ensures
            row_valid(*fov, *lor, final (row).entries@),
    ;
}

impl Projector for Siddon {
    fn buffers(fov: &FOV) -> (r: SystemMatrixRow)
        ensures
            r.entries@.len() == 0,
    {
        SystemMatrixRow::new()
    }

    fn project_one_lor(fov: &FOV, lor: &Lor, row: &mut SystemMatrixRow)
        ensures
            row_valid(*fov, *lor, final (row).entries@),
    {
        Siddon::compute_row(fov, lor, row)
    }
}

} // verus!
