//! Tests of the scatter-correction histograms and their axes.

use petalo::error::Error;
use petalo::image::FIXED_ONE;
use petalo::lorogram::{
    axis_dz, axis_phi, axis_z, mk_lor, Exrogram, Hist1D, Hist2D, JustZ, Lorogram, Prompt,
    Scattergram,
};

/// Filling and reading the azimuth axis: two lors with the same direction
/// (up to positive scaling of the endpoints) land in the same bin.
#[test]
fn uniform() {
    let nbins = 10;
    let axis = axis_phi(nbins);
    assert_eq!(axis.num_bins(), nbins);
    let mut h = Hist1D::new(axis);
    let x = 1500;
    let y = 2345;
    let (dummy1, dummy2, dummy3, dummy4) = (1111, 2222, 3333, 4444);
    let (a, b) = (30, 40);  // scaling factors
    Exrogram::fi11(&mut h, &mk_lor(((a * x, a * y, dummy1), (-a * x, -a * y, dummy2))));
    let n = Exrogram::ualue(&h, &mk_lor(((b * x, b * y, dummy3), (-b * x, -b * y, dummy4))));
    assert_eq!(n, 1);
}

/// A two-axis histogram over the axial midpoint and the axial difference:
/// two lors sharing both features share a bin.
#[test]
fn two_dimensions() {
    let nbins_z = 10;
    let nbins_dz = 10;
    let l = 10000;
    let max_dz = l;
    let mut h = Hist2D::new(axis_z(nbins_z, -l / 2, l / 2), axis_dz(nbins_dz, max_dz));
    let (z, delta) = (1234, 5432);
    // Irrelevant values
    let (i1, i2, i3, i4, i5, i6, i7, i8) = (100, 200, 300, 400, 500, 600, 700, 800);

    let l1 = mk_lor(((i1, i2, z - delta), (i3, i4, z + delta)));
    let l2 = mk_lor(((i5, i6, z + delta), (i7, i8, z - delta)));
    Exrogram::fi11(&mut h, &l1);
    let n = Exrogram::ualue(&h, &l2);

    assert_eq!(n, 1);
}

/// A single-axis lookup over the axial midpoint: two lors with the same
/// midpoint land in the same bin.
#[test]
fn retrieve() {
    let mut lg = JustZ::new(1000, 10);
    lg.fill(&mk_lor(((0, 0, 111), (0, 0, 555))));
    let n = lg.value(&mk_lor(((1, 2, 222), (9, 8, 444))));
    assert_eq!(n, 1);
}

fn small_scattergram() -> Scattergram {
    Scattergram::new(4, 4, 1000, 4, 1000, 4, 500, 4, 100)
}

/// A bin with no evidence of trues or scatters reports exactly one; a bin
/// with scatters but no trues reports the maximum-distrust sentinel.
#[test]
fn value_of_empty_and_scatter_only_bins() {
    let mut sg = small_scattergram();
    let lor = mk_lor(((-300, 10, 40), (300, -20, -60)));
    assert_eq!(sg.value(&lor), FIXED_ONE);
    sg.fill(Prompt::Scatter, &lor).unwrap();
    assert_eq!(sg.value(&lor), u64::MAX);
}

/// With trues present the ratio is `(scatters + trues) / trues`.
#[test]
fn value_is_bin_ratio() {
    let mut sg = small_scattergram();
    let lor = mk_lor(((-300, 10, 40), (300, -20, -60)));
    sg.fill(Prompt::True, &lor).unwrap();
    sg.fill(Prompt::True, &lor).unwrap();
    sg.fill(Prompt::Scatter, &lor).unwrap();
    // (1 + 2) / 2 = 1.5 in fixed point.
    assert_eq!(sg.value(&lor), 3 * FIXED_ONE / 2);
    let (ratio, trues, scatters) = sg.triplet(&lor);
    assert_eq!(ratio, 3 * FIXED_ONE / 2);
    assert_eq!(trues, 2);
    assert_eq!(scatters, 1);
}

/// A triplet follows the same zero-trues rule as the plain ratio: one on
/// an empty bin, the maximum-distrust sentinel when only scatters were
/// seen, with the raw counts alongside.
#[test]
fn triplet_without_trues() {
    let mut sg = small_scattergram();
    let lor = mk_lor(((-300, 10, 40), (300, -20, -60)));
    let (ratio, trues, scatters) = sg.triplet(&lor);
    assert_eq!((ratio, trues, scatters), (FIXED_ONE, 0, 0));
    sg.fill(Prompt::Scatter, &lor).unwrap();
    let (ratio, trues, scatters) = sg.triplet(&lor);
    assert_eq!(ratio, u64::MAX);
    assert_eq!(trues, 0);
    assert_eq!(scatters, 1);
}

/// Random prompts are unsupported and fail fast without touching the
/// table.
#[test]
fn random_prompt_fails_fast() {
    let mut sg = small_scattergram();
    let lor = mk_lor(((-300, 10, 40), (300, -20, -60)));
    assert_eq!(sg.fill(Prompt::Random, &lor), Err(Error::RandomPromptUnsupported));
    assert_eq!(sg.value(&lor), FIXED_ONE);
}

/// Radial binning is exact: lors at planar distances 200 and 130 from the
/// scanner axis share the `[125, 250)` cell of a four-cell axis over
/// `[0, 500)`, while a lor at distance 300 does not.
#[test]
fn radial_bins_group_by_distance() {
    let mut jr = petalo::lorogram::JustR::new(500, 4);
    jr.fill(&mk_lor(((-300, 200, 0), (300, 200, 0))));
    assert_eq!(jr.value(&mk_lor(((-100, 130, 5), (250, 130, -5)))), 1);
    assert_eq!(jr.value(&mk_lor(((-300, 300, 0), (300, 300, 0)))), 0);
}

/// Azimuth binning separates directions in different octants and ignores
/// scale: with eight bins, a nearly horizontal and a nearly vertical
/// direction land in different bins.
#[test]
fn azimuth_bins_separate_directions() {
    let mut jp = petalo::lorogram::JustPhi::new(8);
    jp.fill(&mk_lor(((-100, -10, 0), (100, 10, 0))));
    assert_eq!(jp.value(&mk_lor(((-500, -50, 3), (500, 50, 7)))), 1);
    assert_eq!(jp.value(&mk_lor(((-10, -100, 0), (10, 100, 0)))), 0);
}

/// The azimuth bin is a property of the undirected line: filling with one
/// orientation and querying with the endpoints swapped hits the same bin.
#[test]
fn azimuth_is_endpoint_order_invariant() {
    let mut jp = petalo::lorogram::JustPhi::new(8);
    let a = mk_lor(((-300, 10, 40), (300, -20, -60)));
    let b = mk_lor(((300, -20, -60), (-300, 10, 40)));
    jp.fill(&a);
    assert_eq!(jp.value(&b), 1);
}

/// The whole scattergram bin survives swapping the endpoints: a scatter
/// seen in one orientation makes the other orientation maximally
/// distrusted.
#[test]
fn scattergram_bin_survives_endpoint_swap() {
    let mut sg = small_scattergram();
    let a = mk_lor(((-300, 10, 40), (300, -20, -60)));
    let b = mk_lor(((300, -20, -60), (-300, 10, 40)));
    sg.fill(Prompt::Scatter, &a).unwrap();
    assert_eq!(sg.value(&b), u64::MAX);
}

/// Different bins stay independent: a fill far away does not change the
/// queried bin.
#[test]
fn bins_are_independent() {
    let mut sg = small_scattergram();
    let near = mk_lor(((-300, 10, 40), (300, -20, -60)));
    let far = mk_lor(((10, -300, -400), (-20, 300, 380)));
    sg.fill(Prompt::True, &far).unwrap();
    assert_eq!(sg.value(&near), FIXED_ONE);
}
