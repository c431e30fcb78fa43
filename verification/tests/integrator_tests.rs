//! The recursive integrator, the background gradient and the tone map.

use badtracing::materials::{Lambertian, Material};
use badtracing::objects::{Object, Sphere};
use badtracing::ray::Ray;
use badtracing::rng::Rng64;
use badtracing::vec3::Vec3;
use badtracing::{attenuate, background, ray_color, to_rgb8};

fn red_sphere_world() -> [Object; 1] {
    [Object::Sphere(Sphere::new(
        Vec3::new(0, 0, -1_000_000),
        500_000,
        Material::Lambertian(Lambertian { albedo: Vec3::new(800_000, 300_000, 300_000) }),
    ))]
}

#[test]
fn test_ray_color_depth_zero_is_black() {
    // An exhausted bounce budget yields exactly black, whatever the ray
    // or the scene.
    let world = red_sphere_world();
    let empty: [Object; 0] = [];
    let mut rng = Rng64::new(3);
    for &dir in &[
        Vec3::new(0, 0, -1_000_000),
        Vec3::new(1_000_000, 2_000_000, 3_000_000),
        Vec3::new(0, -1_000_000, 0),
    ] {
        let r = Ray::new(Vec3::new(0, 0, 0), dir);
        assert_eq!(ray_color(&mut rng, r, &world, 0), Vec3::new(0, 0, 0));
        assert_eq!(ray_color(&mut rng, r, &empty, 0), Vec3::new(0, 0, 0));
    }
}

#[test]
fn test_background_endpoints() {
    // Straight down gives white; straight up gives sky blue.
    let down = Ray::new(Vec3::new(0, 0, 0), Vec3::new(0, -1_000_000, 0));
    assert_eq!(background(down), Vec3::new(1_000_000, 1_000_000, 1_000_000));
    let up = Ray::new(Vec3::new(0, 0, 0), Vec3::new(0, 1_000_000, 0));
    assert_eq!(background(up), Vec3::new(500_000, 700_000, 1_000_000));
}

#[test]
fn test_background_monotone_sweep() {
    // Exactly-unit directions whose vertical component climbs from down
    // to up: the red and green channels never increase and the blue
    // channel never decreases along the sweep.
    let dirs = [
        Vec3::new(0, -1_000_000, 0),
        Vec3::new(0, -800_000, 600_000),
        Vec3::new(0, -600_000, 800_000),
        Vec3::new(0, 0, 1_000_000),
        Vec3::new(0, 600_000, 800_000),
        Vec3::new(0, 800_000, 600_000),
        Vec3::new(0, 1_000_000, 0),
    ];
    let mut prev = background(Ray::new(Vec3::new(0, 0, 0), dirs[0]));
    for d in dirs.iter().skip(1) {
        let cur = background(Ray::new(Vec3::new(0, 0, 0), *d));
        assert!(cur.x <= prev.x);
        assert!(cur.y <= prev.y);
        assert!(cur.z >= prev.z);
        prev = cur;
    }
}

#[test]
fn test_single_bounce_reflects_albedo_bias() {
    // A ray from the origin straight down the axis into the red sphere:
    // once the budget lets the bounced ray reach the sky, the color is
    // neither black nor white and the red channel dominates, and no
    // channel ever exceeds its albedo however many bounces are allowed.
    let world = red_sphere_world();
    let r = Ray::new(Vec3::new(0, 0, 0), Vec3::new(0, 0, -1_000_000));
    for depth in 2..16u32 {
        let mut rng = Rng64::new(77);
        let c = ray_color(&mut rng, r, &world, depth);
        assert!(c.x > 0, "non-black at depth {}", depth);
        assert!(c.x < 1_000_000, "non-white at depth {}", depth);
        assert!(c.x >= c.y && c.x >= c.z, "red bias at depth {}", depth);
        assert!(c.x <= 800_000 && c.y <= 300_000 && c.z <= 300_000);
    }
}

#[test]
fn test_attenuate_only_loses_energy() {
    let a = Vec3::new(800_000, 300_000, 300_000);
    let c = Vec3::new(900_000, 1_000_000, 123_456);
    let f = attenuate(a, c);
    assert_eq!(f, Vec3::new(720_000, 300_000, 37_036));
    assert!(f.x <= a.x && f.y <= a.y && f.z <= a.z);
    assert!(f.x <= c.x && f.y <= c.y && f.z <= c.z);
}

#[test]
fn test_to_rgb8_exact() {
    // Full white maps to 255, a quarter of white gamma-corrects to one
    // half and maps to 128, black stays zero.
    let px = Vec3::new(1_000_000, 250_000, 0);
    assert_eq!(to_rgb8(px, 1), (255, 128, 0));
    // Averaging over four samples divides first.
    let px4 = Vec3::new(4_000_000, 1_000_000, 0);
    assert_eq!(to_rgb8(px4, 4), (255, 128, 0));
}
