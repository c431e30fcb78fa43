//! Primitive intersection on exact fixed-point scenes.

use badtracing::materials::{Lambertian, Material};
use badtracing::objects::{hit, Cube, Object, Sphere, Square};
use badtracing::ray::Ray;
use badtracing::vec3::Vec3;

fn gray() -> Material {
    Material::Lambertian(Lambertian { albedo: Vec3::new(500_000, 500_000, 500_000) })
}

#[test]
fn test_sphere_hit_head_on() {
    // A ray aimed exactly at the center of a half-unit sphere two units
    // away hits the surface at exactly one and a half units.
    let s = Sphere::new(Vec3::new(0, 0, -2_000_000), 500_000, gray());
    let r = Ray::new(Vec3::new(0, 0, 0), Vec3::new(0, 0, -1_000_000));
    let rec = s.hit(r, 1_000, 100_000_000_000).unwrap();
    assert_eq!(rec.t, 1_500_000);
    assert_eq!(rec.p, Vec3::new(0, 0, -1_500_000));
    assert_eq!(rec.normal, Vec3::new(0, 0, 1_000_000));
    assert!(rec.front_face);
    // The outward normal points away from the center.
    let out = rec.p.sub(Vec3::new(0, 0, -2_000_000));
    assert!(rec.normal.dot(out) > 0);
}

#[test]
fn test_sphere_hit_recomputes_identically() {
    let s = Sphere::new(Vec3::new(0, 0, -2_000_000), 500_000, gray());
    let r = Ray::new(Vec3::new(0, 0, 0), Vec3::new(0, 0, -1_000_000));
    let first = s.hit(r, 1_000, 100_000_000_000);
    let second = s.hit(r, 1_000, 100_000_000_000);
    assert_eq!(first, second);
}

#[test]
fn test_sphere_miss_and_range() {
    let s = Sphere::new(Vec3::new(0, 0, -2_000_000), 500_000, gray());
    // Pointing away misses.
    let away = Ray::new(Vec3::new(0, 0, 0), Vec3::new(0, 0, 1_000_000));
    assert!(s.hit(away, 1_000, 100_000_000_000).is_none());
    // A range past the sphere rejects both roots.
    let toward = Ray::new(Vec3::new(0, 0, 0), Vec3::new(0, 0, -1_000_000));
    assert!(s.hit(toward, 3_000_000, 100_000_000_000).is_none());
    assert!(s.hit(toward, 1_000, 1_000_000).is_none());
    // From inside, the far root wins.
    let inside = Ray::new(Vec3::new(0, 0, -2_000_000), Vec3::new(0, 0, -1_000_000));
    let rec = inside.dir.z.signum();
    assert_eq!(rec, -1);
    let h = s.hit(inside, 1_000, 100_000_000_000).unwrap();
    assert_eq!(h.t, 500_000);
    assert!(!h.front_face);
}

#[test]
fn test_square_hit() {
    let q = Square {
        center: Vec3::new(0, 0, -2_000_000),
        radius: 500_000,
        normal: Vec3::new(0, 0, 1_000_000),
        orientation: Vec3::new(1_000_000, 0, 0),
        material: gray(),
    };
    let r = Ray::new(Vec3::new(0, 0, 0), Vec3::new(0, 0, -1_000_000));
    let rec = q.hit(r, 1_000, 100_000_000_000).unwrap();
    assert_eq!(rec.t, 2_000_000);
    assert_eq!(rec.p, Vec3::new(0, 0, -2_000_000));
    assert!(rec.front_face);
    // Offset past the half-extent misses; parallel rays miss.
    let off = Ray::new(Vec3::new(600_000, 0, 0), Vec3::new(0, 0, -1_000_000));
    assert!(q.hit(off, 1_000, 100_000_000_000).is_none());
    let par = Ray::new(Vec3::new(0, 0, 0), Vec3::new(1_000_000, 0, 0));
    assert!(q.hit(par, 1_000, 100_000_000_000).is_none());
}

#[test]
fn test_cube_new_frame() {
    let c = Cube::new(
        Vec3::new(0, 0, -2_000_000),
        500_000,
        Vec3::new(0, 1_000_000, 0),
        Vec3::new(1_000_000, 0, 0),
        gray(),
    )
    .unwrap();
    assert_eq!(c.a, Vec3::new(0, 1_000_000, 0));
    assert_eq!(c.b, Vec3::new(1_000_000, 0, 0));
    assert_eq!(c.c, Vec3::new(0, 0, -1_000_000));
}

#[test]
fn test_cube_new_rejects_parallel_axes() {
    let res = Cube::new(
        Vec3::new(0, 0, 0),
        500_000,
        Vec3::new(0, 1_000_000, 0),
        Vec3::new(0, 2_000_000, 0),
        gray(),
    );
    assert!(res.is_none());
}

#[test]
fn test_cube_hit_front_face() {
    let c = Cube::new(
        Vec3::new(0, 0, -2_000_000),
        500_000,
        Vec3::new(0, 1_000_000, 0),
        Vec3::new(1_000_000, 0, 0),
        gray(),
    )
    .unwrap();
    let r = Ray::new(Vec3::new(0, 0, 0), Vec3::new(0, 0, -1_000_000));
    let rec = c.hit(r, 1_000, 100_000_000_000).unwrap();
    // The near face sits half a unit before the center.
    assert_eq!(rec.t, 1_500_000);
    assert_eq!(rec.p, Vec3::new(0, 0, -1_500_000));
    assert_eq!(rec.normal, Vec3::new(0, 0, 1_000_000));
}

#[test]
fn test_world_scan_keeps_nearest() {
    let far = Object::Sphere(Sphere::new(Vec3::new(0, 0, -10_000_000), 500_000, gray()));
    let near = Object::Sphere(Sphere::new(Vec3::new(0, 0, -2_000_000), 500_000, gray()));
    let world = [far, near];
    let r = Ray::new(Vec3::new(0, 0, 0), Vec3::new(0, 0, -1_000_000));
    let rec = hit(&world, r, 1_000, 100_000_000_000).unwrap();
    assert_eq!(rec.t, 1_500_000);
    // The order of the scan does not change the winner.
    let world2 = [near, far];
    let rec2 = hit(&world2, r, 1_000, 100_000_000_000).unwrap();
    assert_eq!(rec, rec2);
    // An empty scene has no hit.
    let empty: [Object; 0] = [];
    assert!(hit(&empty, r, 1_000, 100_000_000_000).is_none());
}
