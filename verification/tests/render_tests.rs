//! Camera rays and the render driver, including the determinism contract.

use badtracing::camera::Camera;
use badtracing::materials::{Lambertian, Material, Metal};
use badtracing::objects::{Object, Sphere};
use badtracing::render::{render_image, render_row};
use badtracing::rng::Rng64;
use badtracing::vec3::Vec3;

fn demo_camera() -> Camera {
    // Eye at (13, 2, 3) looking at the origin, a twenty-degree vertical
    // field of view (tangent of half the angle), three-to-two aspect,
    // a tenth of a unit of aperture, focus ten units out.
    Camera::new(
        Vec3::new(13_000_000, 2_000_000, 3_000_000),
        Vec3::new(0, 0, 0),
        Vec3::new(0, 1_000_000, 0),
        176_327,
        1_500_000,
        100_000,
        10_000_000,
    )
    .unwrap()
}

fn demo_world() -> [Object; 2] {
    [
        Object::Sphere(Sphere::new(
            Vec3::new(0, -1_000_500_000, 0),
            1_000_000_000,
            Material::Lambertian(Lambertian { albedo: Vec3::new(500_000, 500_000, 500_000) }),
        )),
        Object::Sphere(Sphere::new(
            Vec3::new(0, 500_000, 0),
            500_000,
            Material::Metal(Metal { albedo: Vec3::new(700_000, 600_000, 500_000), fuzz: 0 }),
        )),
    ]
}

#[test]
fn test_camera_new_accepts_demo_setup() {
    let cam = demo_camera();
    assert_eq!(cam.origin, Vec3::new(13_000_000, 2_000_000, 3_000_000));
    assert_eq!(cam.lens_radius, 50_000);
}

#[test]
fn test_camera_new_rejects_degenerate_gaze() {
    // Eye and look-at coincide: no viewing direction.
    let res = Camera::new(
        Vec3::new(1_000_000, 0, 0),
        Vec3::new(1_000_000, 0, 0),
        Vec3::new(0, 1_000_000, 0),
        176_327,
        1_500_000,
        100_000,
        10_000_000,
    );
    assert!(res.is_none());
    // Up parallel to the gaze: no horizontal axis.
    let res2 = Camera::new(
        Vec3::new(0, 1_000_000, 0),
        Vec3::new(0, 0, 0),
        Vec3::new(0, 1_000_000, 0),
        176_327,
        1_500_000,
        100_000,
        10_000_000,
    );
    assert!(res2.is_none());
}

#[test]
fn test_get_ray_is_a_function_of_the_state() {
    let cam = demo_camera();
    let mut a = Rng64::new(21);
    let mut b = Rng64::new(21);
    for (s, t) in [(0i64, 0i64), (500_000, 500_000), (1_000_000, 1_000_000), (250_000, 750_000)] {
        let ra = cam.get_ray(&mut a, s, t);
        let rb = cam.get_ray(&mut b, s, t);
        assert_eq!(ra, rb);
        assert_eq!(a.state, b.state);
    }
}

#[test]
fn test_render_row_deterministic() {
    let cam = demo_camera();
    let world = demo_world();
    let row1 = render_row(&cam, &world, 8, 6, 1, 8, 3);
    let row2 = render_row(&cam, &world, 8, 6, 1, 8, 3);
    assert_eq!(row1, row2);
    assert_eq!(row1.len(), 8);
}

#[test]
fn test_render_rows_differ_by_seed() {
    let cam = demo_camera();
    let world = demo_world();
    let row3 = render_row(&cam, &world, 8, 6, 2, 8, 3);
    let row4 = render_row(&cam, &world, 8, 6, 2, 8, 4);
    assert_ne!(row3, row4);
}

#[test]
fn test_render_image_bit_identical_across_runs() {
    // One sample per pixel, rendered twice: the determinism contract says
    // the two images agree bit for bit.
    let cam = demo_camera();
    let world = demo_world();
    let img1 = render_image(&cam, &world, 6, 4, 1, 10);
    let img2 = render_image(&cam, &world, 6, 4, 1, 10);
    assert_eq!(img1, img2);
    assert_eq!(img1.len(), 24);
}

#[test]
fn test_render_image_rows_match_row_renderer() {
    // The image is the scanlines top row first, each equal to what the
    // row renderer produces for that index.
    let cam = demo_camera();
    let world = demo_world();
    let width = 5u32;
    let height = 3u32;
    let img = render_image(&cam, &world, width, height, 2, 6);
    for n in 0..height {
        let j = height - 1 - n;
        let row = render_row(&cam, &world, width, height, 2, 6, j);
        let start = (n * width) as usize;
        assert_eq!(&img[start..start + width as usize], &row[..]);
    }
}
