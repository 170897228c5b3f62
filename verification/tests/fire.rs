use gosh::error::Error;
use gosh::models::{Atom, ChemicalModel, ModelProperties, Structure};
use gosh::num::SCALE;
use gosh::optimization::fire::FIRE;
use gosh::optimization::{check_converged, ConvergenceCriteria, Optimizer};
use gosh::vector::V3;

fn v(x: i64, y: i64, z: i64) -> V3 {
    V3 { x, y, z }
}

fn one_atom(x: i64) -> Structure {
    Structure::new(vec![Atom { element: 1, position: v(x, 0, 0) }])
}

fn cycles(n: usize) -> ConvergenceCriteria {
    let mut c = ConvergenceCriteria::default();
    c.max_cycle = n;
    c
}

/// A harmonic well centered at the origin: `F = -x`, `E = x^2 / 2`.
struct HarmonicWell;

impl ChemicalModel for HarmonicWell {
    fn compute(&self, mol: &Structure) -> Result<ModelProperties, Error> {
        let mut forces: Vec<V3> = Vec::new();
        let mut energy: i128 = 0;
        for a in &mol.atoms {
            let p = a.position;
            forces.push(v(-p.x, -p.y, -p.z));
            let e = (p.x as i128) * (p.x as i128) + (p.y as i128) * (p.y as i128)
                + (p.z as i128) * (p.z as i128);
            energy += e / (2 * SCALE as i128);
        }
        let mut mp = ModelProperties::default();
        mp.energy = Some(energy as i64);
        mp.forces = Some(forces);
        Ok(mp)
    }
}

/// A model whose forces vanish everywhere.
struct FlatModel;

impl ChemicalModel for FlatModel {
    fn compute(&self, mol: &Structure) -> Result<ModelProperties, Error> {
        let mut mp = ModelProperties::default();
        mp.energy = Some(0);
        mp.forces = Some(vec![v(0, 0, 0); mol.atoms.len()]);
        Ok(mp)
    }
}

/// A model that always fails.
struct BrokenModel;

impl ChemicalModel for BrokenModel {
    fn compute(&self, _mol: &Structure) -> Result<ModelProperties, Error> {
        Err(Error::Model)
    }
}

#[test]
fn test_fire_defaults() {
    let f = FIRE::default();
    assert_eq!(f.dt_max, 1_000_000);
    assert_eq!(f.alpha_start, 100_000);
    assert_eq!(f.f_alpha, 990_000);
    assert_eq!(f.f_dec, 500_000);
    assert_eq!(f.f_inc, 1_100_000);
    assert_eq!(f.maxdisp, 100_000);
    assert_eq!(f.nsteps_min, 5);
    assert_eq!(f.dt, 100_000);
    assert_eq!(f.alpha, 100_000);
    assert_eq!(f.nsteps, 0);
    assert!(f.velocities.is_none());
}

#[test]
fn test_fire_first_cycle_exact() {
    // one atom, force 1.0 along x, fresh engine: the velocity becomes
    // f * dt = 0.1 and the displacement v * dt + f * dt^2 / 2 = 0.015
    let mut fire = FIRE::default();
    let forces = vec![v(SCALE, 0, 0)];
    let d = fire.displacement_vectors(&forces).unwrap();
    assert_eq!(d, vec![v(15_000, 0, 0)]);
    assert_eq!(fire.velocities.as_ref().unwrap(), &vec![v(100_000, 0, 0)]);
    assert_eq!(fire.nsteps, 1);
    assert_eq!(fire.dt, 100_000);
}

#[test]
fn test_fire_uphill_resets_velocity() {
    // after an uphill step (power < 0) the stored velocity holds only
    // the fresh force kick: no trace of the previous +0.1 velocity
    let mut fire = FIRE::default();
    let f1 = vec![v(SCALE, 0, 0)];
    fire.displacement_vectors(&f1).unwrap();
    assert_eq!(fire.velocities.as_ref().unwrap(), &vec![v(100_000, 0, 0)]);
    let f2 = vec![v(-SCALE, 0, 0)];
    fire.displacement_vectors(&f2).unwrap();
    // dt shrank to 0.05, alpha and the counter were reset, and the
    // velocity is exactly f * dt = -0.05
    assert_eq!(fire.dt, 50_000);
    assert_eq!(fire.alpha, 100_000);
    assert_eq!(fire.nsteps, 0);
    assert_eq!(fire.velocities.as_ref().unwrap(), &vec![v(-50_000, 0, 0)]);
}

#[test]
fn test_fire_displacement_capped() {
    // an enormous force proposes an enormous step; the cap scales it
    // back to within maxdisp, rounding toward zero
    let mut fire = FIRE::default();
    let forces = vec![v(500_000_000_000, 0, 0)];
    let d = fire.displacement_vectors(&forces).unwrap();
    // unclipped displacement would be 7.5e9; factor = 0.1 / 7500 -> 13
    assert_eq!(d, vec![v(97_500, 0, 0)]);
    assert!(d[0].x <= fire.maxdisp);
}

#[test]
fn test_fire_global_displacement_cap() {
    // two atoms, force 6.0 each: per-atom steps of 0.09 combine to a
    // global norm of ~0.127 > maxdisp = 0.1, so both atoms are scaled
    // uniformly: factor = 0.1 / 0.127279, 0.09 * factor = 0.070710
    let mut fire = FIRE::default();
    let forces = vec![v(6 * SCALE, 0, 0), v(6 * SCALE, 0, 0)];
    let d = fire.displacement_vectors(&forces).unwrap();
    assert_eq!(d, vec![v(70_710, 0, 0), v(70_710, 0, 0)]);
    // the global norm of the result is within the cap
    let ss: i128 = d.iter().map(|p| (p.x as i128) * (p.x as i128)).sum();
    assert!(ss <= (fire.maxdisp as i128) * (fire.maxdisp as i128));
}

#[test]
fn test_fire_dt_never_exceeds_dt_max() {
    // repeated downhill cycles grow dt, but never past dt_max
    let mut fire = FIRE::default();
    let forces = vec![v(10_000, 0, 0)];
    for _ in 0..50 {
        fire.displacement_vectors(&forces).unwrap();
        assert!(fire.dt <= fire.dt_max);
    }
    assert_eq!(fire.dt, fire.dt_max);
}

#[test]
fn test_fire_converged_thresholds() {
    let fire = FIRE::default();
    // thresholds are configuration: 0.03 force, 0.05 displacement
    let mut crit = ConvergenceCriteria::default();
    crit.max_force = 30_000;
    crit.max_disp = 50_000;
    // force norm 0.029 < 0.03 and displacement norm 0.049 < 0.05
    assert!(fire.converged(&vec![v(29_000, 0, 0)], &vec![v(49_000, 0, 0)], &crit));
    // force norm exactly at the threshold is not converged
    assert!(!fire.converged(&vec![v(30_000, 0, 0)], &vec![v(0, 0, 0)], &crit));
    assert!(!fire.converged(&vec![v(0, 0, 0)], &vec![v(50_000, 0, 0)], &crit));
    // a looser configuration accepts the same forces
    let mut loose = ConvergenceCriteria::default();
    loose.max_force = 40_000;
    assert!(fire.converged(&vec![v(30_000, 0, 0)], &vec![v(0, 0, 0)], &loose));
}

#[test]
fn test_check_converged_empty() {
    let none: Vec<V3> = vec![];
    assert!(check_converged(&none, &none, 1, 1));
}

#[test]
fn test_fire_size_mismatch() {
    let mut fire = FIRE::default();
    fire.displacement_vectors(&vec![v(SCALE, 0, 0)]).unwrap();
    let r = fire.displacement_vectors(&vec![v(SCALE, 0, 0), v(0, 0, 0)]);
    assert_eq!(r, Err(Error::SizeMismatch));
}

#[test]
fn test_fire_out_of_range() {
    let mut fire = FIRE::default();
    let r = fire.displacement_vectors(&vec![v(0x200_0000_0000, 0, 0)]);
    assert_eq!(r, Err(Error::OutOfRange));
}

#[test]
fn test_fire_missing_forces() {
    let mut fire = FIRE::default();
    let mp = ModelProperties::default();
    let r = fire.displacements(&mp);
    assert_eq!(r, Err(Error::MissingForces { image: 0 }));
}

#[test]
fn test_model_failure_aborts_run() {
    let mut fire = FIRE::default();
    let mut mol = one_atom(SCALE);
    let r = fire.run(&mut mol, &BrokenModel, &cycles(10));
    assert_eq!(r, Err(Error::Model));
}

#[test]
fn test_zero_forces_converge_on_cycle_zero() {
    // a flat energy surface is converged immediately: cycle 0
    let mut fire = FIRE::default();
    let mut mol = one_atom(SCALE);
    let report = fire.run(&mut mol, &FlatModel, &cycles(100)).unwrap();
    assert!(report.converged);
    assert_eq!(report.ncycles, 0);
    // the structure was never moved
    assert_eq!(mol.atoms[0].position, v(SCALE, 0, 0));
}

#[test]
fn test_fire_opt_harmonic() {
    // a strictly convex single-minimum well: FIRE converges within the
    // cycle budget and ends close to the minimum
    let mut fire = FIRE::default();
    let mut mol = one_atom(SCALE);
    let report = fire.run(&mut mol, &HarmonicWell, &cycles(500)).unwrap();
    assert!(report.converged, "harmonic well did not converge: {:?}", report);
    assert!(report.ncycles < 500);
    // the force threshold of the loop is 0.10, so the atom ends within
    // 0.10 of the origin
    assert!(mol.atoms[0].position.x.abs() < 100_000);
}

/// A checkpoint sink that records how often it was asked, and always
/// fails.
struct FailingSink {
    commits: usize,
}

impl gosh::optimization::CheckpointSink for FailingSink {
    fn commit(&mut self, _mp: &ModelProperties) -> Result<(), Error> {
        self.commits += 1;
        Err(Error::Model)
    }
}

#[test]
fn test_checkpoint_failures_never_propagate() {
    // checkpoint failures are logged-and-ignored: the optimization
    // still runs to convergence
    let mut fire = FIRE::default();
    let mut mol = one_atom(SCALE);
    let mut sink = FailingSink { commits: 0 };
    let report = fire
        .run_with_checkpoint(&mut mol, &HarmonicWell, &cycles(500), &mut sink)
        .unwrap();
    assert!(report.converged);
    assert!(sink.commits > 0);
}
