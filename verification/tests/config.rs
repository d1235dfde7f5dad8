//! Tests of the configuration types and helpers.

use petalo::config::{default_subsets, mandatory, three, tr_tup_res, Bins, BinsLength, BinsMax,
    Config, Fov, Input, Iterations, Scatter, Tof};
use petalo::error::Error;
use petalo::events::{Args, Charge};
use petalo::image::FIXED_ONE;

#[test]
fn defaults_are_mlem_and_three_sigma() {
    assert_eq!(default_subsets(), 1);
    assert_eq!(three(), 3 * FIXED_ONE);
    assert_eq!(mandatory::<u32>(), 0);
    assert_eq!(mandatory::<String>(), String::new());
}

#[test]
fn transpose_triple_of_results() {
    let ok: (Result<i32, &str>, Result<i32, &str>, Result<i32, &str>) = (Ok(1), Ok(2), Ok(3));
    assert_eq!(tr_tup_res(ok), Ok((1, 2, 3)));
    let mid: (Result<i32, &str>, Result<i32, &str>, Result<i32, &str>) = (Ok(1), Err("b"), Ok(3));
    assert_eq!(tr_tup_res(mid), Err("b"));
    let two: (Result<i32, &str>, Result<i32, &str>, Result<i32, &str>) = (Ok(1), Err("b"), Err("c"));
    assert_eq!(tr_tup_res(two), Err("b"));
    let last: (Result<i32, &str>, Result<i32, &str>, Result<i32, &str>) = (Ok(1), Ok(2), Err("c"));
    assert_eq!(tr_tup_res(last), Err("c"));
}

#[test]
fn fov_config_builds_a_grid() {
    let cfg = Fov { nvoxels: (10, 20, 30), size: (120, 456, 780) };
    let fov = cfg.build().unwrap();
    assert_eq!((fov.n.x, fov.n.y, fov.n.z), (10, 20, 30));
    assert_eq!((fov.half_width.x, fov.half_width.y, fov.half_width.z), (60, 228, 390));

    let bad = Fov { nvoxels: (0, 20, 30), size: (120, 456, 780) };
    assert!(matches!(bad.build(), Err(Error::InvalidVoxelCount { .. })));
}

#[test]
fn config_holds_plain_values() {
    let config = Config {
        input: Input { file: String::from("some/file.h5"), dataset: String::from("some/dataset") },
        iterations: Iterations { number: 4, subsets: 20 },
        fov: Fov { nvoxels: (60, 60, 60), size: (180, 180, 180) },
        tof: Some(Tof { sigma: 200, cutoff: three() }),
        scatter_correction: Some(Scatter {
            phi: Some(Bins { bins: 12 }),
            r: Some(BinsMax { bins: 34, max: 56 }),
            dz: Some(BinsMax { bins: 33, max: 34 }),
            dt: Some(BinsMax { bins: 35, max: 36 }),
            z: Some(BinsLength { bins: 37, length: 380 }),
        }),
    };
    assert_eq!(config.input.dataset, "some/dataset");
    assert_eq!(config.iterations.number, 4);
    assert_eq!(config.iterations.subsets, 20);
    let tof = config.tof.unwrap();
    assert_eq!(tof.sigma, 200);
    assert_eq!(tof.cutoff, 3 * FIXED_ONE);
    let sc = config.scatter_correction.unwrap();
    assert_eq!(sc.phi.unwrap().bins, 12);
    assert_eq!(sc.r.unwrap().max, 56);
    assert_eq!(sc.z.unwrap().length, 380);
}

#[test]
fn event_records_hold_plain_values() {
    let args = Args {
        input_file: String::from("src/io/test.h5"),
        dataset: String::from("reco_info/table"),
        event_range: Some((0, 4)),
        use_true: false,
        read_lors: false,
    };
    assert_eq!(args.event_range, Some((0, 4)));
    let charge = Charge { event_id: 7, sensor_id: 3, charge: 120 };
    assert_eq!(charge, Charge { event_id: 7, sensor_id: 3, charge: 120 });
}
