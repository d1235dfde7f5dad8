//! Tests of the MLEM / OSEM driver.

use petalo::error::Error;
use petalo::fov::{FOV, N3, V3};
use petalo::image::{Image, FIXED_ONE};
use petalo::lor::Lor;
use petalo::mlem::{accumulate, forward_project, subset_indices, update_estimate, Osem};
use petalo::siddon::Siddon;
use petalo::system_matrix::SystemMatrixRow;

fn cube_fov(size: i64, n: usize) -> FOV {
    FOV::new(V3 { x: size, y: size, z: size }, N3 { x: n, y: n, z: n }).unwrap()
}

fn crossing_lors() -> Vec<Lor> {
    vec![
        Lor::new(0, 0, V3 { x: -200, y: 0, z: 0 }, V3 { x: 200, y: 0, z: 0 }),
        Lor::new(0, 0, V3 { x: 0, y: -200, z: 0 }, V3 { x: 0, y: 200, z: 0 }),
        Lor::new(0, 0, V3 { x: -150, y: -150, z: -20 }, V3 { x: 150, y: 150, z: 20 }),
    ]
}

#[test]
fn osem_rejects_zero_subsets() {
    let fov = cube_fov(180, 4);
    assert!(matches!(Osem::new(fov, crossing_lors(), None, 0), Err(Error::NoSubsets)));
}

#[test]
fn osem_rejects_mismatched_sensitivity() {
    let fov = cube_fov(180, 4);
    let other = cube_fov(180, 6);
    let sens = Image::ones(other);
    let r = Osem::new(fov, crossing_lors(), Some(sens), 1);
    match r {
        Err(Error::SensitivityMismatch { expected, actual }) => {
            assert_eq!(expected, 64);
            assert_eq!(actual, 216);
        },
        _ => panic!("expected a sensitivity mismatch"),
    }
}

#[test]
fn image_rejects_wrong_length() {
    let fov = cube_fov(180, 4);
    let r = Image::new(fov, vec![FIXED_ONE; 63]);
    match r {
        Err(Error::ImageLengthMismatch { expected, actual }) => {
            assert_eq!(expected, 64);
            assert_eq!(actual, 63);
        },
        _ => panic!("expected a length mismatch"),
    }
    assert!(Image::new(fov, vec![FIXED_ONE; 64]).is_ok());
}

#[test]
fn subset_partition_strides_and_is_identity_for_one() {
    let idx = subset_indices(10, 3, 1);
    assert_eq!(idx, vec![1, 4, 7]);
    let all = subset_indices(10, 1, 0);
    assert_eq!(all, (0..10).collect::<Vec<usize>>());
    let empty = subset_indices(2, 5, 4);
    assert!(empty.is_empty());
}

/// A single ordered-subsets step with `subsets = 1` reproduces a plain
/// MLEM update assembled by hand from the verified pieces.
#[test]
fn single_subset_step_is_plain_mlem() {
    let fov = cube_fov(180, 6);
    let lors = crossing_lors();
    let mut osem = Osem::new(fov, lors.clone(), None, 1).unwrap();
    osem.step();

    // Plain MLEM by hand: forward, back-project, renormalise, over every
    // lor in order.
    let estimate = Image::ones(fov);
    let sens = Image::ones(fov);
    let mut acc: Vec<u64> = vec![0; fov.nvoxels()];
    let mut row = SystemMatrixRow::new();
    for lor in &lors {
        Siddon::compute_row(&fov, lor, &mut row);
        let forward = forward_project(&row, &estimate);
        if forward > 0 {
            accumulate(&mut acc, &fov, &row, lor.additive_correction, forward);
        }
    }
    let mut expected = estimate.data.clone();
    update_estimate(&mut expected, &acc, &sens.data);

    assert_eq!(osem.estimate.data, expected);
    assert_eq!(osem.iteration, 1);
    assert_eq!(osem.subset, 0);
}

/// On a single-voxel box with one crossing lor and a correction ratio of
/// two, the estimate climbs monotonically to the value whose forward
/// projection matches the corrected measurement, and stays there.
#[test]
fn single_voxel_mlem_converges_monotonically() {
    let fov = cube_fov(2, 1);
    let lor = Lor::new(0, 0, V3 { x: -2, y: 0, z: 0 }, V3 { x: 2, y: 0, z: 0 })
        .with_additive_correction(2 * FIXED_ONE);
    let mut osem = Osem::new(fov, vec![lor], None, 1).unwrap();
    let mut values = vec![osem.estimate.data[0]];
    for _ in 0..5 {
        osem.step();
        values.push(osem.estimate.data[0]);
    }
    for w in values.windows(2) {
        assert!(w[1] >= w[0], "estimate decreased: {:?}", values);
    }
    // The fixed point carries the correction ratio of two.
    assert_eq!(*values.last().unwrap(), 2 * FIXED_ONE);
    assert_eq!(osem.skipped, 0);
}

/// Voxels with zero sensitivity are never touched, and lors with a zero
/// forward projection are skipped and counted, not treated as errors.
#[test]
fn zero_sensitivity_voxels_are_preserved() {
    let fov = cube_fov(180, 2);
    let nvox = fov.nvoxels();
    // A sensitivity image that is zero everywhere freezes the estimate.
    let sens = Image::new(fov, vec![0; nvox]).unwrap();
    let mut osem = Osem::new(fov, crossing_lors(), Some(sens), 1).unwrap();
    osem.step();
    assert!(osem.estimate.data.iter().all(|&v| v == FIXED_ONE));
}

#[test]
fn zero_forward_projection_is_skipped_and_counted() {
    let fov = cube_fov(180, 2);
    // A zero estimate makes every forward projection zero; feed one by
    // stepping with an all-zero sensitivity after zeroing the estimate.
    let mut osem = Osem::new(fov, crossing_lors(), None, 1).unwrap();
    for v in osem.estimate.data.iter_mut() {
        *v = 0;
    }
    osem.step();
    assert_eq!(osem.skipped, 3);
}

#[test]
fn subset_counters_advance_and_wrap() {
    let fov = cube_fov(180, 2);
    let mut osem = Osem::new(fov, crossing_lors(), None, 3).unwrap();
    assert_eq!((osem.iteration, osem.subset), (0, 0));
    osem.step();
    assert_eq!((osem.iteration, osem.subset), (0, 1));
    osem.step();
    assert_eq!((osem.iteration, osem.subset), (0, 2));
    osem.step();
    assert_eq!((osem.iteration, osem.subset), (1, 0));
}
