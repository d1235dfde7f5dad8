//! Images: a flat per-voxel value array tied to a field of view.
//!
//! Voxel values are fixed-point intensities: [`FIXED_ONE`] stands for an
//! intensity of one.  The array layout is the flat-index convention of
//! [`crate::fov::FOV::flat_index`]: `x` varies fastest, then `y`, then `z`.

use vstd::prelude::*;

use crate::error::Error;
use crate::fov::FOV;

verus! {

/// The fixed-point representation of the intensity (or ratio) one: 2^20.
pub const FIXED_ONE: u64 = 1048576;

/// A voxel image: a field of view and one fixed-point value per voxel.
pub struct Image {
    pub fov: FOV,
    pub data: Vec<u64>,
}

impl Image {
    /// Well-formed: the array length matches the field of view, always.
    pub open spec fn wf(self) -> bool {
        &&& self.fov.wf()
        &&& self.data@.len() == self.fov.nvox()
    }

    /// A uniform image with every voxel at intensity one.
    pub fn ones(fov: FOV) -> (r: Image)
        requires
            fov.wf(),
        ensures
            r.wf(),
            r.fov == fov,
            forall|v: int| 0 <= v < r.data@.len() ==> r.data@[v] == FIXED_ONE,
    {
        let nvox = fov.nvoxels();
        let mut data: Vec<u64> = Vec::new();
        let mut k: usize = 0;
        while k < nvox
            invariant
                k == data@.len() <= nvox,
                forall|v: int| 0 <= v < k ==> data@[v] == FIXED_ONE,
            decreases nvox - k,
        {
            data.push(FIXED_ONE);
            k = k + 1;
        }
        Image { fov, data }
    }

    /// An image over `fov` holding `data`, or an error naming the expected
    /// and actual lengths when they do not match.  Never reinterprets data
    /// of the wrong size.
    pub fn new(fov: FOV, data: Vec<u64>) -> (r: Result<Image, Error>)
        requires
            fov.wf(),
        ensures
            match r {
                Ok(img) => {
                    &&& img.wf()
                    &&& img.fov == fov
                    &&& img.data@ == data@
                    &&& data@.len() == fov.nvox()
                },
                Err(e) => {
                    &&& e == (Error::ImageLengthMismatch {
                        expected: fov.nvox() as usize,
                        actual: data@.len() as usize,
                    })
                    &&& data@.len() != fov.nvox()
                },
            },
    {
        let expected = fov.nvoxels();
        if data.len() != expected {
            return Err(Error::ImageLengthMismatch { expected, actual: data.len() });
        }
        Ok(Image { fov, data })
    }

    /// The number of voxels.
    pub fn len(&self) -> (r: usize)
        ensures
            r == self.data@.len(),
    {
        self.data.len()
    }

    /// The value of voxel `v`.
    pub fn get(&self, v: usize) -> (r: u64)
        requires
            v < self.data@.len(),
        ensures
            r == self.data@[v as int],
    {
        self.data[v]
    }
}

} // verus!
