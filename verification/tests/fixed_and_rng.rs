//! The fixed-point scalar operations and the seeded generator.

use badtracing::fixed::{clamp, fx_div, fx_mul, fx_sqrt, isqrt};
use badtracing::rng::Rng64;
use badtracing::{random_scalar, random_scalar_mm, random_vec3_in_unit_disk,
    random_vec3_in_unit_sphere, random_unit_vec3};

#[test]
fn test_fx_mul_rounds_toward_zero() {
    assert_eq!(fx_mul(500_000, 500_000), 250_000);
    assert_eq!(fx_mul(-500_000, 500_000), -250_000);
    assert_eq!(fx_mul(1, 1), 0);
    assert_eq!(fx_mul(-1, 1), 0);
    assert_eq!(fx_mul(3_000_000, -2_000_000), -6_000_000);
}

#[test]
fn test_fx_div() {
    assert_eq!(fx_div(1_000_000, 2_000_000), 500_000);
    assert_eq!(fx_div(-1_000_000, 2_000_000), -500_000);
    assert_eq!(fx_div(1_000_000, -2_000_000), -500_000);
    assert_eq!(fx_div(1, 3), 333_333);
}

#[test]
fn test_sqrt() {
    assert_eq!(isqrt(0), 0);
    assert_eq!(isqrt(143), 11);
    assert_eq!(isqrt(144), 12);
    assert_eq!(fx_sqrt(1_000_000), 1_000_000);
    assert_eq!(fx_sqrt(4_000_000), 2_000_000);
    assert_eq!(fx_sqrt(250_000), 500_000);
    assert_eq!(fx_sqrt(0), 0);
}

#[test]
fn test_clamp() {
    assert_eq!(clamp(5, 0, 10), 5);
    assert_eq!(clamp(-5, 0, 10), 0);
    assert_eq!(clamp(15, 0, 10), 10);
}

#[test]
fn test_rng_reproducible() {
    let mut a = Rng64::new(42);
    let mut b = Rng64::new(42);
    for _ in 0..100 {
        assert_eq!(a.next_unit(), b.next_unit());
    }
    let mut c = Rng64::new(43);
    let seq_a: Vec<i64> = (0..8).map(|_| a.next_unit()).collect();
    let seq_c: Vec<i64> = (0..8).map(|_| c.next_unit()).collect();
    assert_ne!(seq_a, seq_c);
}

#[test]
fn test_random_ranges() {
    let mut rng = Rng64::new(7);
    for _ in 0..200 {
        let u = random_scalar(&mut rng);
        assert!((0..1_000_000).contains(&u));
        let m = random_scalar_mm(&mut rng, -2_000_000, 2_000_000);
        assert!((-2_000_000..=2_000_000).contains(&m));
    }
}

#[test]
fn test_random_samplers_stay_inside() {
    let mut rng = Rng64::new(11);
    for _ in 0..50 {
        let p = random_vec3_in_unit_sphere(&mut rng);
        let ls = p.length_squared();
        assert!(ls >= 1 && ls < 1_000_000);
        let d = random_vec3_in_unit_disk(&mut rng);
        assert_eq!(d.z, 0);
        assert!(d.length_squared() < 1_000_000);
        let u = random_unit_vec3(&mut rng);
        assert!(u.x.abs() <= 2_000_000 && u.y.abs() <= 2_000_000 && u.z.abs() <= 2_000_000);
        // A normalized sample has length one to within the grid's rounding.
        let l = u.length();
        assert!((997_000..=1_003_000).contains(&l));
    }
}
