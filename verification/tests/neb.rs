use gosh::error::Error;
use gosh::models::{Atom, ChemicalModel, ModelProperties, Structure};
use gosh::num::SCALE;
use gosh::optimization::neb::{
    find_climbing_image, real_forces_perpendicular, tangent_vectors_improved,
    tangent_vectors_original, Image, NEB,
};
use gosh::optimization::ConvergenceCriteria;
use gosh::vector::V3;

fn v(x: i64, y: i64, z: i64) -> V3 {
    V3 { x, y, z }
}

fn one_atom(x: i64) -> Structure {
    Structure::new(vec![Atom { element: 6, position: v(x, 0, 0) }])
}

fn chain(xs: &[i64]) -> Vec<Structure> {
    xs.iter().map(|&x| one_atom(x)).collect()
}

#[test]
fn test_image_new() {
    let img = Image::new(one_atom(0));
    assert!(img.energy.is_none());
    assert!(img.forces.is_none());
    assert_eq!(img.mol.natoms(), 1);
}

#[test]
fn test_neb_new_defaults() {
    let neb = NEB::new(chain(&[0, SCALE, 2 * SCALE]));
    assert_eq!(neb.images.len(), 3);
    assert_eq!(neb.spring_constants, vec![100_000, 100_000]);
    assert!(!neb.climbing);
    assert_eq!(neb.climbing_tol, 5_000);
}

#[test]
fn test_check_images_accepts_consistent_chain() {
    let neb = NEB::new(chain(&[0, SCALE, 2 * SCALE]));
    assert!(neb.check_images().is_ok());
}

#[test]
fn test_check_images_too_few() {
    let neb = NEB::new(chain(&[0, SCALE]));
    assert_eq!(neb.check_images(), Err(Error::TooFewImages { count: 2 }));
}

#[test]
fn test_check_images_atom_count_mismatch() {
    let mut neb = NEB::new(chain(&[0, SCALE, 2 * SCALE]));
    neb.images[1].mol = Structure::new(vec![
        Atom { element: 6, position: v(0, 0, 0) },
        Atom { element: 6, position: v(SCALE, 0, 0) },
    ]);
    assert_eq!(neb.check_images(), Err(Error::AtomCountMismatch { image: 1 }));
}

#[test]
fn test_check_images_element_mismatch() {
    let mut neb = NEB::new(chain(&[0, SCALE, 2 * SCALE]));
    neb.images[2].mol = Structure::new(vec![Atom { element: 8, position: v(2 * SCALE, 0, 0) }]);
    assert_eq!(neb.check_images(), Err(Error::ElementMismatch { image: 2 }));
}

#[test]
fn test_tangent_original_averages_normalized_sides() {
    // both sides have length 1.0 along x: each normalizes to 1.0, and
    // the classical tangent is their average
    let ds = vec![vec![v(SCALE, 0, 0)], vec![v(SCALE, 0, 0)]];
    let ts = tangent_vectors_original(&ds).unwrap();
    assert_eq!(ts, vec![vec![v(SCALE, 0, 0)]]);

    // orthogonal unit sides average to one half each
    let ds2 = vec![vec![v(SCALE, 0, 0)], vec![v(0, SCALE, 0)]];
    let ts2 = tangent_vectors_original(&ds2).unwrap();
    assert_eq!(ts2, vec![vec![v(SCALE / 2, SCALE / 2, 0)]]);
}

#[test]
fn test_tangent_original_degenerate() {
    let ds = vec![vec![v(0, 0, 0)], vec![v(SCALE, 0, 0)]];
    let r = tangent_vectors_original(&ds);
    assert_eq!(r, Err(Error::DegenerateTangent { image: 0 }));
}

#[test]
fn test_improved_tangent_monotonic_increasing() {
    // three co-linear, evenly spaced images with increasing energy:
    // the improved tangent is exactly the normalized displacement on
    // the higher-energy (next) side
    let ds = vec![vec![v(SCALE, 0, 0)], vec![v(SCALE, 0, 0)]];
    let es = vec![0, SCALE, 2 * SCALE];
    let ts = tangent_vectors_improved(&ds, &es).unwrap();
    assert_eq!(ts, vec![vec![v(SCALE, 0, 0)]]);
}

#[test]
fn test_improved_tangent_monotonic_decreasing() {
    // decreasing energies select the previous side; to tell the two
    // sides apart, give them different directions
    let ds = vec![vec![v(0, 2 * SCALE, 0)], vec![v(SCALE, 0, 0)]];
    let es = vec![2 * SCALE, SCALE, 0];
    let ts = tangent_vectors_improved(&ds, &es).unwrap();
    // the previous-side displacement (0, 2, 0) normalizes to (0, 1, 0)
    assert_eq!(ts, vec![vec![v(0, SCALE, 0)]]);
}

#[test]
fn test_improved_tangent_weighted_at_extremum() {
    // an energy maximum mixes both sides, weighted by the energy
    // differences; equal differences weight both sides by one half
    let ds = vec![vec![v(SCALE, 0, 0)], vec![v(0, SCALE, 0)]];
    let es = vec![0, SCALE, 0];
    let ts = tangent_vectors_improved(&ds, &es).unwrap();
    // combination: 0.5 * (1, 0, 0) + 0.5 * (0, 1, 0); its norm is
    // isqrt(2 * 500000^2) = 707106, and each component normalizes to
    // 500000 * 1000000 / 707106 = 707107
    assert_eq!(ts, vec![vec![v(707_107, 707_107, 0)]]);
}

#[test]
fn test_real_forces_perpendicular_removes_tangential_part() {
    // force (1, 1, 0) against tangent (1, 0, 0): the projection 1.0
    // is removed from x, leaving (0, 1, 0)
    let fs = vec![
        vec![v(0, 0, 0)],
        vec![v(SCALE, SCALE, 0)],
        vec![v(0, 0, 0)],
    ];
    let ts = vec![vec![v(SCALE, 0, 0)]];
    let r = real_forces_perpendicular(&fs, &ts);
    assert_eq!(r, vec![vec![v(0, SCALE, 0)]]);
}

#[test]
fn test_find_climbing_image_unique_peak() {
    // image 2 of 5 is strictly higher than both neighbors by more
    // than the tolerance: it is the unique climbing image
    let es = vec![0, SCALE, 3 * SCALE, SCALE, 0];
    assert_eq!(find_climbing_image(&es, 5_000), Ok(2));
}

#[test]
fn test_find_climbing_image_two_peaks_ambiguous() {
    let es = vec![0, 3 * SCALE, SCALE, 3 * SCALE, 0];
    assert_eq!(
        find_climbing_image(&es, 5_000),
        Err(Error::AmbiguousClimbingImage { count: 2 })
    );
}

#[test]
fn test_find_climbing_image_no_peak_ambiguous() {
    let es = vec![0, SCALE, 2 * SCALE, 3 * SCALE, 4 * SCALE];
    assert_eq!(
        find_climbing_image(&es, 5_000),
        Err(Error::AmbiguousClimbingImage { count: 0 })
    );
}

#[test]
fn test_find_climbing_image_respects_tolerance() {
    // the middle image is higher, but not by more than the tolerance
    let es = vec![0, 4_000, 0];
    assert_eq!(
        find_climbing_image(&es, 5_000),
        Err(Error::AmbiguousClimbingImage { count: 0 })
    );
}

fn cached_chain(xs: &[i64], es: &[i64], climbing: bool) -> NEB {
    let mut neb = NEB::new(chain(xs));
    neb.climbing = climbing;
    for (i, img) in neb.images.iter_mut().enumerate() {
        img.energy = Some(es[i]);
        img.forces = Some(vec![v(0, 0, 0)]);
    }
    neb
}

#[test]
fn test_neb_forces_missing_energy() {
    let mut neb = NEB::new(chain(&[0, SCALE, 2 * SCALE]));
    for img in neb.images.iter_mut() {
        img.forces = Some(vec![v(0, 0, 0)]);
    }
    assert_eq!(neb.neb_forces(), Err(Error::MissingEnergy { image: 0 }));
}

#[test]
fn test_neb_forces_climbing_selects_unique_peak() {
    // a single peak at image 2: climbing succeeds, and the climbing
    // image's force is the (zero) real force with the tangential part
    // inverted, still zero
    let neb = cached_chain(
        &[0, SCALE, 2 * SCALE, 3 * SCALE, 4 * SCALE],
        &[0, SCALE, 3 * SCALE, SCALE, 0],
        true,
    );
    let fs = neb.neb_forces().unwrap();
    assert_eq!(fs.len(), 3);
}

#[test]
fn test_neb_forces_climbing_two_peaks_fails() {
    let neb = cached_chain(
        &[0, SCALE, 2 * SCALE, 3 * SCALE, 4 * SCALE],
        &[0, 3 * SCALE, SCALE, 3 * SCALE, 0],
        true,
    );
    assert_eq!(
        neb.neb_forces(),
        Err(Error::AmbiguousClimbingImage { count: 2 })
    );
}

/// A harmonic model pulling every atom toward the origin.
struct PullToOrigin;

impl ChemicalModel for PullToOrigin {
    fn compute(&self, mol: &Structure) -> Result<ModelProperties, Error> {
        let mut forces: Vec<V3> = Vec::new();
        let mut energy: i128 = 0;
        for a in &mol.atoms {
            let p = a.position;
            forces.push(v(-p.x / 10, -p.y / 10, -p.z / 10));
            energy += (p.x as i128) * (p.x as i128) / (20 * SCALE as i128);
        }
        let mut mp = ModelProperties::default();
        mp.energy = Some(energy as i64);
        mp.forces = Some(forces);
        Ok(mp)
    }
}

#[test]
fn test_neb_run_keeps_endpoints_fixed() {
    let mut neb = NEB::new(chain(&[0, SCALE, 2 * SCALE]));
    let mut crit = ConvergenceCriteria::default();
    crit.max_cycle = 200;
    let report = neb.run(&PullToOrigin, &crit).unwrap();
    assert!(report.converged);
    // the endpoints never move
    assert_eq!(neb.images[0].mol.atoms[0].position, v(0, 0, 0));
    assert_eq!(neb.images[2].mol.atoms[0].position, v(2 * SCALE, 0, 0));
    // the chain shape is intact
    assert_eq!(neb.images.len(), 3);
    assert_eq!(neb.images[1].mol.natoms(), 1);
}

/// A model whose batch method hands back too few records.
struct ShortBatch;

impl ChemicalModel for ShortBatch {
    fn compute(&self, _mol: &Structure) -> Result<ModelProperties, Error> {
        Ok(ModelProperties::default())
    }

    fn compute_many(&self, _mols: &Vec<Structure>) -> Result<Vec<ModelProperties>, Error> {
        Ok(vec![])
    }
}

#[test]
fn test_calculate_uses_batch_pathway() {
    // calculate evaluates the whole chain through the batch method; a
    // batch of the wrong size is rejected, proving the override is the
    // pathway taken
    let mut neb = NEB::new(chain(&[0, SCALE, 2 * SCALE]));
    assert_eq!(neb.calculate(&ShortBatch), Err(Error::SizeMismatch));
    // the chain is left untouched
    assert!(neb.images[0].energy.is_none());
}
