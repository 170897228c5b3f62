use gosh::error::Error;
use gosh::num::SCALE;
use gosh::optimization::line::golden_section_search;
use gosh::optimization::line::GoldenSectionSearch;

#[test]
fn test_golden_section_search() {
    // x^4 - 14 x^3 + 60 x^2 - 70 x on [0, 2]: minimum near 0.7809
    let (a, b) = golden_section_search(0, 2 * SCALE)
        .find(|x: i64| {
            let x2 = x * x / SCALE;
            let x3 = x2 * x / SCALE;
            let x4 = x3 * x / SCALE;
            x4 - 14 * x3 + 60 * x2 - 70 * x
        })
        .expect("gss");
    assert!((a - 780_900).abs() <= 10_000, "a = {a}");
    assert!((b - 780_900).abs() <= 10_000, "b = {b}");

    // (x - 2)^2 on [1, 5]: minimum at 2.0
    let (a, b) = golden_section_search(SCALE, 5 * SCALE)
        .find(|x: i64| {
            let d = x - 2 * SCALE;
            d * d / SCALE
        })
        .expect("gss");
    assert!((a - 2 * SCALE).abs() <= 10_000, "a = {a}");
    assert!((b - 2 * SCALE).abs() <= 10_000, "b = {b}");
}

#[test]
fn test_golden_section_search_iteration_cap() {
    // with a cap of 5 iterations the interval has shrunk five times
    // but still brackets the minimum
    let (a, b) = golden_section_search(SCALE, 5 * SCALE)
        .with_epsilon(10)
        .with_max_iterations(5)
        .find(|x: i64| {
            let d = x - 2 * SCALE;
            d * d / SCALE
        })
        .expect("gss");
    assert!(SCALE <= a && a <= b && b <= 5 * SCALE);
    assert!(a <= 2 * SCALE && 2 * SCALE <= b);
}

#[test]
fn test_golden_section_search_bad_interval() {
    let gss = GoldenSectionSearch { a: 5, b: 5, epsilon: 1_000, max_iterations: 0 };
    assert_eq!(gss.find(|x: i64| x), Err(Error::OutOfRange));
}

#[test]
fn test_golden_section_search_brackets_strict_minimum() {
    // |x - t| is strictly unimodal over the integers, with no flat
    // stretches: the returned bracket must contain t exactly
    let t: i64 = 1_234_567;
    let (a, b) = golden_section_search(0, 4 * SCALE)
        .with_epsilon(1)
        .find(|x: i64| (x - t).abs())
        .expect("gss");
    assert!(a <= t && t <= b, "bracket [{a}, {b}] lost the minimum {t}");
    assert!(b - a <= 8);
}
