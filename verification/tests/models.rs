use gosh::models::{Atom, DftbModel, ModelProperties, Structure};
use gosh::optimization::ConvergenceCriteria;
use gosh::vector::V3;

fn v(x: i64, y: i64, z: i64) -> V3 {
    V3 { x, y, z }
}

#[test]
fn test_model_properties_is_empty() {
    let mut mp = ModelProperties::default();
    assert!(mp.is_empty());
    mp.energy = Some(1);
    assert!(!mp.is_empty());
    let mut mp2 = ModelProperties::default();
    mp2.forces = Some(vec![]);
    assert!(!mp2.is_empty());
}

#[test]
fn test_structure_positions_roundtrip() {
    let mut s = Structure::new(vec![
        Atom { element: 1, position: v(1, 2, 3) },
        Atom { element: 8, position: v(4, 5, 6) },
    ]);
    assert_eq!(s.natoms(), 2);
    assert_eq!(s.positions(), vec![v(1, 2, 3), v(4, 5, 6)]);
    let moved = vec![v(7, 8, 9), v(10, 11, 12)];
    s.set_positions(&moved);
    assert_eq!(s.positions(), moved);
    // element identities survive a position update
    assert_eq!(s.atoms[0].element, 1);
    assert_eq!(s.atoms[1].element, 8);
}

#[test]
fn test_structure_duplicate() {
    let s = Structure::new(vec![Atom { element: 6, position: v(1, 1, 1) }]);
    let d = s.duplicate();
    assert_eq!(d.atoms, s.atoms);
}

#[test]
fn test_dftb_model_default() {
    let m = DftbModel::default();
    assert_eq!(m.runfile, "./submit.sh");
}

#[test]
fn test_convergence_criteria_default() {
    let c = ConvergenceCriteria::default();
    assert_eq!(c.max_cycle, 100);
    assert_eq!(c.max_force, 100_000);
    assert_eq!(c.max_disp, 50_000);
}
