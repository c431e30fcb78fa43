//! Vector algebra on the fixed-point grid: one unit is 1_000_000 steps.

use badtracing::fixed::SCALE;
use badtracing::vec3::Vec3;

#[test]
fn test_add_assign() {
    // 1.0, 2.0, 3.0 plus 0.1, 0.2, 0.3 is 1.1, 2.2, 3.3 exactly.
    let mut vec = Vec3::new(1_000_000, 2_000_000, 3_000_000);
    vec = vec.add(Vec3::new(100_000, 200_000, 300_000));
    assert_eq!(vec, Vec3::new(1_100_000, 2_200_000, 3_300_000));
}

#[test]
fn test_cross() {
    let vec1 = Vec3::new(1_000_000, 0, 0);
    let vec2 = Vec3::new(0, 1_000_000, 0);
    assert_eq!(vec1.cross(vec2), Vec3::new(0, 0, 1_000_000));
}

#[test]
fn test_dot_and_length() {
    let v = Vec3::new(3_000_000, 4_000_000, 0);
    // |v|^2 = 25, |v| = 5, exactly representable.
    assert_eq!(v.length_squared(), 25_000_000);
    assert_eq!(v.length(), 5_000_000);
    assert_eq!(v.dot(Vec3::new(1_000_000, 1_000_000, 1_000_000)), 7_000_000);
}

#[test]
fn test_unit_vector_exact() {
    let v = Vec3::new(3_000_000, 4_000_000, 0);
    let u = v.unit_vector();
    assert_eq!(u, Vec3::new(600_000, 800_000, 0));
}

#[test]
fn test_unit_vector_idempotent() {
    // Normalizing a 3-4-5 vector lands exactly on the unit sphere, so
    // normalizing again changes nothing.
    let v = Vec3::new(3_000_000, 4_000_000, 0);
    let once = v.unit_vector();
    assert_eq!(once.unit_vector(), once);
    let w = Vec3::new(-5_000_000, 0, 12_000_000);
    let wu = w.unit_vector();
    // 5-12-13 is another exact Pythagorean normalization.
    assert_eq!(wu, Vec3::new(-384_615, 0, 923_076));
}

#[test]
fn test_reflect_flips_normal_component() {
    // Reflect (1, -1, 0) about the upward unit normal: the y component
    // flips sign exactly.
    let v = Vec3::new(1_000_000, -1_000_000, 0);
    let n = Vec3::new(0, 1_000_000, 0);
    let r = v.reflect(n);
    assert_eq!(r, Vec3::new(1_000_000, 1_000_000, 0));
    assert_eq!(r.dot(n), -v.dot(n));
}

#[test]
fn test_refract_straight_through() {
    // A ray hitting head-on refracts straight through at ratio one.
    let v = Vec3::new(0, 0, -1_000_000);
    let n = Vec3::new(0, 0, 1_000_000);
    let r = v.refract(n, 1_000_000);
    assert_eq!(r, Vec3::new(0, 0, -1_000_000));
}

#[test]
fn test_near_zero() {
    assert!(Vec3::new(999, -999, 0).near_zero());
    assert!(!Vec3::new(1000, 0, 0).near_zero());
    assert!(Vec3::new(0, 0, 0).near_zero());
}

#[test]
fn test_index() {
    let v = Vec3::new(7, 8, 9);
    assert_eq!(v.index(0), 7);
    assert_eq!(v.index(1), 8);
    assert_eq!(v.index(2), 9);
}

#[test]
fn test_neg_scale_hadamard() {
    let v = Vec3::new(2_000_000, -500_000, 0);
    assert_eq!(v.neg(), Vec3::new(-2_000_000, 500_000, 0));
    assert_eq!(v.scale(500_000), Vec3::new(1_000_000, -250_000, 0));
    assert_eq!(
        v.hadamard(Vec3::new(500_000, 500_000, 500_000)),
        Vec3::new(1_000_000, -250_000, 0)
    );
    let _ = SCALE;
}
