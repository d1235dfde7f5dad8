//! Tests of the field of view, the Siddon projector and the row geometry.

use petalo::fov::{FOV, N3, V3};
use petalo::frac::Frac;
use petalo::image::{Image, FIXED_ONE};
use petalo::lor::Lor;
use petalo::mlem::{entry_alpha_weight, forward_project};
use petalo::siddon::Siddon;
use petalo::system_matrix::SystemMatrixRow;

fn cube_fov(size: i64, n: usize) -> FOV {
    FOV::new(V3 { x: size, y: size, z: size }, N3 { x: n, y: n, z: n }).unwrap()
}

fn frac_f64(f: Frac) -> f64 {
    f.num as f64 / f.den as f64
}

#[test]
fn fov_rejects_bad_voxel_counts() {
    let r = FOV::new(V3 { x: 180, y: 180, z: 180 }, N3 { x: 0, y: 60, z: 60 });
    assert!(matches!(r, Err(petalo::error::Error::InvalidVoxelCount { .. })));
}

#[test]
fn fov_rejects_degenerate_size() {
    let r = FOV::new(V3 { x: 0, y: 180, z: 180 }, N3 { x: 60, y: 60, z: 60 });
    assert!(matches!(r, Err(petalo::error::Error::InvalidFovSize { .. })));
    let odd = FOV::new(V3 { x: 181, y: 180, z: 180 }, N3 { x: 60, y: 60, z: 60 });
    assert!(matches!(odd, Err(petalo::error::Error::InvalidFovSize { .. })));
}

#[test]
fn voxel_index_maps_the_grid() {
    let fov = cube_fov(180, 60);
    // Half-width 90, voxel size 3: the origin sits in voxel (30, 30, 30).
    let c = fov.voxel_index(V3 { x: 0, y: 0, z: 0 }).unwrap();
    assert_eq!(c, 30 + 60 * (30 + 60 * 30));
    // The lowest corner is voxel 0.
    let lo = fov.voxel_index(V3 { x: -90, y: -90, z: -90 }).unwrap();
    assert_eq!(lo, 0);
    // The upper faces are outside (half-open box).
    assert!(fov.voxel_index(V3 { x: 90, y: 0, z: 0 }).is_none());
    assert!(fov.voxel_index(V3 { x: 0, y: -91, z: 0 }).is_none());
    assert_eq!(fov.nvoxels(), 216000);
}

/// The concrete scenario: a 180-unit cube with 60 voxels per side and an
/// axis-aligned lor from (-200, 0, 0) to (200, 0, 0) must traverse exactly
/// 60 voxels, each with an intersection length of exactly 3 units.
#[test]
fn axis_aligned_lor_crosses_sixty_voxels() {
    let fov = cube_fov(180, 60);
    let lor = Lor::new(0, 0, V3 { x: -200, y: 0, z: 0 }, V3 { x: 200, y: 0, z: 0 });
    let mut row = SystemMatrixRow::new();
    Siddon::compute_row(&fov, &lor, &mut row);
    assert_eq!(row.len(), 60);
    // Segment length is 400 units; each entry's exact width must satisfy
    // (hi - lo) * 400 == 3, checked by cross-multiplication.
    let mut total = 0.0f64;
    for (k, e) in row.entries.iter().enumerate() {
        let wnum = (e.hi.num as i128) * (e.lo.den as i128) - (e.lo.num as i128) * (e.hi.den as i128);
        let wden = (e.hi.den as i128) * (e.lo.den as i128);
        assert_eq!(wnum * 400, 3 * wden, "entry {k} does not weigh exactly 3 units");
        total += (wnum as f64 / wden as f64) * 400.0;
        // The ray runs along x through the central y/z row.
        assert_eq!(e.ix, k);
        assert_eq!(e.iy, 30);
        assert_eq!(e.iz, 30);
    }
    assert!((total - 180.0).abs() < 1e-9, "total intersection length {total} != 180");
}

/// A lor with both endpoints strictly inside the box spans the whole
/// parameter range: its first interval starts at exactly 0, its last ends
/// at exactly 1, and the widths sum to 1.
#[test]
fn interior_lor_spans_unit_range() {
    let fov = cube_fov(180, 60);
    let lor = Lor::new(0, 0, V3 { x: -50, y: -20, z: 10 }, V3 { x: 60, y: 40, z: -30 });
    let mut row = SystemMatrixRow::new();
    Siddon::compute_row(&fov, &lor, &mut row);
    assert!(row.len() > 0);
    let first = row.entries.first().unwrap();
    let last = row.entries.last().unwrap();
    assert_eq!(first.lo.num, 0);
    assert_eq!(last.hi.num, last.hi.den);
    let sum: f64 = row
        .entries
        .iter()
        .map(|e| frac_f64(e.hi) - frac_f64(e.lo))
        .sum();
    assert!((sum - 1.0).abs() < 1e-9, "alpha widths sum to {sum}, not 1");
}

/// No duplicate voxels, and consecutive entries differ by exactly one grid
/// step along exactly one axis.
#[test]
fn row_has_no_duplicates_and_steps_one_axis() {
    let fov = cube_fov(180, 60);
    let lor = Lor::new(0, 0, V3 { x: -200, y: -130, z: 40 }, V3 { x: 200, y: 155, z: -75 });
    let mut row = SystemMatrixRow::new();
    Siddon::compute_row(&fov, &lor, &mut row);
    assert!(row.len() > 0);
    let vox: Vec<(usize, usize, usize)> = row.entries.iter().map(|e| (e.ix, e.iy, e.iz)).collect();
    for i in 0..vox.len() {
        for j in (i + 1)..vox.len() {
            assert_ne!(vox[i], vox[j], "voxel repeated in row");
        }
    }
    for w in vox.windows(2) {
        let dx = (w[1].0 as i64 - w[0].0 as i64).abs();
        let dy = (w[1].1 as i64 - w[0].1 as i64).abs();
        let dz = (w[1].2 as i64 - w[0].2 as i64).abs();
        assert_eq!(dx + dy + dz, 1, "consecutive entries are not grid neighbours");
    }
}

/// A lor that misses the box entirely yields an empty row, and so does a
/// degenerate (zero-length) lor.
#[test]
fn missing_and_degenerate_lors_yield_empty_rows() {
    let fov = cube_fov(180, 60);
    let miss = Lor::new(0, 0, V3 { x: 300, y: 300, z: 0 }, V3 { x: 300, y: 300, z: 100 });
    let mut row = SystemMatrixRow::new();
    Siddon::compute_row(&fov, &miss, &mut row);
    assert_eq!(row.len(), 0);

    let zero = Lor::new(0, 0, V3 { x: 10, y: 10, z: 10 }, V3 { x: 10, y: 10, z: 10 });
    Siddon::compute_row(&fov, &zero, &mut row);
    assert_eq!(row.len(), 0);

    // Grazing past a face without entering also produces nothing.
    let graze = Lor::new(0, 0, V3 { x: -200, y: 90, z: 0 }, V3 { x: 200, y: 90, z: 0 });
    Siddon::compute_row(&fov, &graze, &mut row);
    assert_eq!(row.len(), 0);
}

/// Forward-projecting a uniform ("ones") image equals the lor's total
/// fixed-point intersection weight times the uniform value.
#[test]
fn forward_projection_of_ones_is_total_weight() {
    let fov = cube_fov(180, 60);
    let img = Image::ones(fov);
    let lor = Lor::new(0, 0, V3 { x: -200, y: 0, z: 0 }, V3 { x: 200, y: 0, z: 0 });
    let mut row = SystemMatrixRow::new();
    Siddon::compute_row(&fov, &lor, &mut row);
    let forward = forward_project(&row, &img);
    let expected: u128 = row
        .entries
        .iter()
        .map(|e| entry_alpha_weight(e) as u128 * FIXED_ONE as u128)
        .sum();
    assert_eq!(forward, expected);
    // The clipped range covers 180 of 400 units: the weight total is 0.45
    // of the parameter scale, up to one rounding unit per entry.
    let alpha_total = expected as f64 / (FIXED_ONE as f64 * 1073741824.0);
    assert!((alpha_total - 0.45).abs() < 1e-6, "alpha total {alpha_total}");
}

/// The buffer is reused: a second projection overwrites the first.
#[test]
fn row_buffer_is_overwritten() {
    let fov = cube_fov(180, 60);
    let mut row = SystemMatrixRow::new();
    let long = Lor::new(0, 0, V3 { x: -200, y: 0, z: 0 }, V3 { x: 200, y: 0, z: 0 });
    Siddon::compute_row(&fov, &long, &mut row);
    assert_eq!(row.len(), 60);
    let miss = Lor::new(0, 0, V3 { x: 300, y: 300, z: 0 }, V3 { x: 300, y: 300, z: 100 });
    Siddon::compute_row(&fov, &miss, &mut row);
    assert_eq!(row.len(), 0);
}
