use gosh::num::SCALE;
use gosh::vector::{check_bounded, copy_vec, dot, norm_raw, V3};

fn v(x: i64, y: i64, z: i64) -> V3 {
    V3 { x, y, z }
}

#[test]
fn test_vector_dot() {
    // (1, 4, 0) . (4, 1, 0) + (5, 6, 0) . (2, 2, 0) = 8 + 22 = 30
    let a = vec![v(1 * SCALE, 4 * SCALE, 0), v(5 * SCALE, 6 * SCALE, 0)];
    let b = vec![v(4 * SCALE, 1 * SCALE, 0), v(2 * SCALE, 2 * SCALE, 0)];
    let x = dot(&a, &b);
    assert_eq!(x, 30 * (SCALE as i128) * (SCALE as i128));
}

#[test]
fn test_norm_raw_pythagorean() {
    // |(3, 4, 0)| = 5, in raw units
    let a = vec![v(3 * SCALE, 4 * SCALE, 0)];
    assert_eq!(norm_raw(&a), 5 * SCALE);
}

#[test]
fn test_norm_raw_truncates() {
    // |(1, 1, 0)| = sqrt(2): the raw norm is the integer square root
    let a = vec![v(SCALE, SCALE, 0)];
    assert_eq!(norm_raw(&a), 1_414_213);
}

#[test]
fn test_check_bounded() {
    let a = vec![v(10, -10, 0)];
    assert!(check_bounded(&a, 10));
    assert!(!check_bounded(&a, 9));
}

#[test]
fn test_copy_vec() {
    let a = vec![v(1, 2, 3), v(4, 5, 6)];
    let b = copy_vec(&a);
    assert_eq!(a, b);
}
