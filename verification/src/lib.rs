//! Iterative PET image reconstruction over an exact integer coordinate grid.
//!
//! Physical positions are carried as `i64` coordinate units (the caller picks
//! the physical meaning of one unit, e.g. one micrometre), and the position
//! along a line of response is carried as an exact rational fraction of the
//! segment.  This keeps every geometric statement of the projector exact, so
//! the ray-tracing, the reconstruction driver and the scatter histogram can
//! all be verified without any floating-point rounding entering the library.

pub mod config;
pub mod error;
pub mod events;
pub mod fov;
pub mod frac;
pub mod image;
pub mod laws;
pub mod lor;
pub mod lorogram;
pub mod mlem;
pub mod projector;
pub mod siddon;
pub mod system_matrix;
