use gosh::models::{Atom, Structure};
use gosh::num::SCALE;
use gosh::optimization::check_converged;
use gosh::optimization::fire::FIRE;
use gosh::vector::V3;

/// A Lennard-Jones-type toy potential (epsilon = sigma = 1), computed
/// in floating point and quantized to the crate's raw fixed-point
/// scalars.
struct ToyLj;

impl ToyLj {
    fn pair_energy(&self, r: f64) -> f64 {
        let s6 = (1.0 / r).powi(6);
        4.0 * (s6 * s6 - s6)
    }

    fn pair_gradient(&self, r: f64) -> f64 {
        let s6 = (1.0 / r).powi(6);
        24.0 * (s6 - 2.0 * s6 * s6) / r
    }

    fn compute(&self, positions: &[[f64; 3]]) -> (f64, Vec<[f64; 3]>) {
        let n = positions.len();
        let mut energy = 0.0;
        let mut forces = vec![[0.0; 3]; n];
        for i in 0..n {
            for j in 0..i {
                let mut dr = [0.0; 3];
                let mut rr = 0.0;
                for k in 0..3 {
                    dr[k] = positions[j][k] - positions[i][k];
                    rr += dr[k] * dr[k];
                }
                let r = rr.sqrt();
                energy += self.pair_energy(r);
                let g = self.pair_gradient(r);
                for k in 0..3 {
                    forces[i][k] += g * dr[k] / r;
                    forces[j][k] += -g * dr[k] / r;
                }
            }
        }
        (energy, forces)
    }
}

fn to_raw(x: f64) -> i64 {
    (x * SCALE as f64).round() as i64
}

#[test]
fn test_lj_toy_fire_opt() {
    // a 3-atom cluster started from a stretched equilateral triangle
    // (side 1.3; the pair minimum sits at 2^(1/6) ~ 1.1225)
    let lj = ToyLj;
    let mut positions: Vec<[f64; 3]> = vec![
        [0.0, 0.0, 0.0],
        [1.3, 0.0, 0.0],
        [0.65, 1.125_833, 0.0],
    ];
    let mut fire = FIRE::default();
    let mut converged = false;
    let mut cycles = 0;
    for _ in 0..500 {
        let (_e, forces_f) = lj.compute(&positions);
        let forces: Vec<V3> = forces_f
            .iter()
            .map(|f| V3 { x: to_raw(f[0]), y: to_raw(f[1]), z: to_raw(f[2]) })
            .collect();
        let dvs = fire.displacement_vectors(&forces).expect("fire step");
        // force threshold 0.01, displacement threshold 0.05
        if check_converged(&forces, &dvs, 10_000, 50_000) {
            converged = true;
            break;
        }
        for (p, d) in positions.iter_mut().zip(dvs.iter()) {
            p[0] += d.x as f64 / SCALE as f64;
            p[1] += d.y as f64 / SCALE as f64;
            p[2] += d.z as f64 / SCALE as f64;
        }
        cycles += 1;
    }
    assert!(converged, "LJ toy cluster did not converge in 500 cycles");
    assert!(cycles < 500);
    // the relaxed cluster sits near the triangular minimum E = -3
    let (e, _f) = lj.compute(&positions);
    assert!(e < -2.9, "final energy too high: {}", e);

    // the same structure type carries the relaxed geometry
    let atoms: Vec<Atom> = positions
        .iter()
        .map(|p| Atom {
            element: 18,
            position: V3 { x: to_raw(p[0]), y: to_raw(p[1]), z: to_raw(p[2]) },
        })
        .collect();
    let mol = Structure::new(atoms);
    assert_eq!(mol.natoms(), 3);
}
