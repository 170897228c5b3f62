use gosh::error::Error;
use gosh::num::SCALE;
use gosh::optimization::cg::{scale_by_max_step, BetaKind, ConjugateGradient, RestartMethod};
use gosh::vector::V3;

fn v(x: i64, y: i64, z: i64) -> V3 {
    V3 { x, y, z }
}

#[test]
fn test_cg_defaults() {
    let cg = ConjugateGradient::default();
    assert!(cg.state.is_none());
    assert_eq!(cg.beta, BetaKind::PR);
    assert_eq!(cg.restart, RestartMethod::Powell);
    assert_eq!(cg.beta_damping, 800_000);
}

#[test]
fn test_scale_by_max_step_scales() {
    // largest component 0.004 exceeds the 0.002 cap: every component
    // is scaled by 0.002 / 0.004
    let d = vec![v(4_000, 1_000, 0)];
    let r = scale_by_max_step(&d);
    assert_eq!(r, vec![v(2_000, 500, 0)]);
}

#[test]
fn test_scale_by_max_step_keeps_small_steps() {
    let d = vec![v(1_500, -9_000, 0)];
    // the largest *component* is 1500 <= 2000: kept, even though a
    // negative component is large in magnitude
    let r = scale_by_max_step(&d);
    assert_eq!(r, d);
}

#[test]
fn test_powell_restart_zeroes_beta() {
    // second cycle with identical forces: |f|^2 / dot(f, f_prev) = 1
    // >= 0.2, so Powell forces beta to zero and the direction is the
    // forces themselves, clipped by the step cap
    let mut cg = ConjugateGradient::default();
    let f = vec![v(SCALE, 0, 0)];
    let d1 = cg.get_displacement_vectors(&f).unwrap();
    // first cycle: beta is damped to zero as well, direction = clip(f)
    assert_eq!(d1, vec![v(2_000, 0, 0)]);
    let d2 = cg.get_displacement_vectors(&f).unwrap();
    assert_eq!(d2, vec![v(2_000, 0, 0)]);
}

#[test]
fn test_negative_restart_clamps_beta() {
    // shrinking forces give a negative Polak-Ribiere beta, which the
    // Negative policy clamps to zero: the direction is again clip(f)
    let mut cg = ConjugateGradient::default();
    cg.restart = RestartMethod::Negative;
    let f0 = vec![v(SCALE, 0, 0)];
    cg.get_displacement_vectors(&f0).unwrap();
    let f1 = vec![v(SCALE / 2, 0, 0)];
    let d = cg.get_displacement_vectors(&f1).unwrap();
    assert_eq!(d, vec![v(2_000, 0, 0)]);
}

#[test]
fn test_fletcher_reeves_mixes_direction() {
    // Fletcher-Reeves with the Negative policy: beta = |f1|^2/|f0|^2
    // = 0.25, damped by 0.8 to 0.2; the previous conjugate direction
    // (0.002, 0, 0) contributes 0.002 * 0.2 = 0.0004
    let mut cg = ConjugateGradient::default();
    cg.beta = BetaKind::FR;
    cg.restart = RestartMethod::Negative;
    let f0 = vec![v(SCALE, 0, 0)];
    cg.get_displacement_vectors(&f0).unwrap();
    let f1 = vec![v(SCALE / 2, 0, 0)];
    let d = cg.get_displacement_vectors(&f1).unwrap();
    // pre-clip direction: 0.5 + 0.0004 = 0.5004, clipped to 0.002
    assert_eq!(d, vec![v(2_000, 0, 0)]);
    // the stored history now holds the clipped direction
    let st = cg.state.as_ref().unwrap();
    assert_eq!(st.forces, f1);
    assert_eq!(st.conjct, d);
}

#[test]
fn test_degenerate_beta() {
    // zero forces on the first cycle give a vanishing denominator
    let mut cg = ConjugateGradient::default();
    let f = vec![v(0, 0, 0)];
    let r = cg.get_displacement_vectors(&f);
    assert_eq!(r, Err(Error::DegenerateBeta));
}
