//! Material scattering behavior on exact fixed-point inputs.

use badtracing::materials::{Dielectric, Lambertian, Material, Metal};
use badtracing::ray::Ray;
use badtracing::rng::Rng64;
use badtracing::vec3::Vec3;
use badtracing::HitRecord;

fn head_on_record(material: Material) -> HitRecord {
    HitRecord::new(
        Vec3::new(0, 0, -1_000_000),
        Vec3::new(0, 0, -1_000_000),
        1_000_000,
        Vec3::new(0, 0, 1_000_000),
        material,
    )
}

#[test]
fn test_hit_record_faces_incoming_ray() {
    let m = Material::Lambertian(Lambertian { albedo: Vec3::new(500_000, 500_000, 500_000) });
    let rec = head_on_record(m);
    assert!(rec.front_face);
    assert_eq!(rec.normal, Vec3::new(0, 0, 1_000_000));
    // From behind, the stored normal flips to face the ray.
    let rec2 = HitRecord::new(
        Vec3::new(0, 0, -1_000_000),
        Vec3::new(0, 0, 1_000_000),
        1_000_000,
        Vec3::new(0, 0, 1_000_000),
        m,
    );
    assert!(!rec2.front_face);
    assert_eq!(rec2.normal, Vec3::new(0, 0, -1_000_000));
}

#[test]
fn test_lambertian_scatter() {
    let albedo = Vec3::new(800_000, 300_000, 300_000);
    let lam = Lambertian { albedo };
    let rec = head_on_record(Material::Lambertian(lam));
    let mut rng = Rng64::new(5);
    let r = Ray::new(Vec3::new(0, 0, 0), Vec3::new(0, 0, -1_000_000));
    let (attenuation, scattered) = lam.scatter(&mut rng, r, rec).unwrap();
    assert_eq!(attenuation, albedo);
    assert_eq!(scattered.orig, rec.p);
    assert!(!scattered.dir.near_zero());
}

#[test]
fn test_metal_mirror_when_fuzz_is_zero() {
    let albedo = Vec3::new(700_000, 600_000, 500_000);
    let metal = Metal { albedo, fuzz: 0 };
    let rec = head_on_record(Material::Metal(metal));
    let mut rng = Rng64::new(5);
    let r = Ray::new(Vec3::new(0, 0, 0), Vec3::new(0, 0, -1_000_000));
    let (attenuation, scattered) = metal.scatter(&mut rng, r, rec).unwrap();
    assert_eq!(attenuation, albedo);
    // A head-on ray bounces straight back off a perfect mirror.
    assert_eq!(scattered.dir, Vec3::new(0, 0, 1_000_000));
    assert_eq!(scattered.orig, rec.p);
}

#[test]
fn test_dielectric_always_scatters_white() {
    // For every refraction index and seed tried, the dielectric returns a
    // scatter with white attenuation and a usable finite direction.
    for &ir in &[500_000i64, 1_500_000, 2_400_000, 10_000_000] {
        for seed in 0..8u64 {
            let d = Dielectric { ir };
            let rec = head_on_record(Material::Dielectric(d));
            let mut rng = Rng64::new(seed);
            let r = Ray::new(Vec3::new(0, 0, 0), Vec3::new(0, 0, -1_000_000));
            let (attenuation, scattered) = d.scatter(&mut rng, r, rec).unwrap();
            assert_eq!(attenuation, Vec3::new(1_000_000, 1_000_000, 1_000_000));
            assert!(!scattered.dir.near_zero());
            let m = 200_000_000i64;
            assert!(scattered.dir.x.abs() <= m);
            assert!(scattered.dir.y.abs() <= m);
            assert!(scattered.dir.z.abs() <= m);
        }
    }
}

#[test]
fn test_dielectric_head_on_refracts_straight() {
    // Head-on, sine is zero: refraction always wins over total internal
    // reflection, and Schlick at cosine one reflects almost never.
    let d = Dielectric { ir: 1_500_000 };
    let rec = head_on_record(Material::Dielectric(d));
    let mut rng = Rng64::new(1);
    let r = Ray::new(Vec3::new(0, 0, 0), Vec3::new(0, 0, -1_000_000));
    let (_, scattered) = d.scatter(&mut rng, r, rec).unwrap();
    // Straight through: the direction keeps pointing into the surface.
    assert!(scattered.dir.z < 0);
    assert_eq!(scattered.dir.x, 0);
    assert_eq!(scattered.dir.y, 0);
}

#[test]
fn test_material_dispatch() {
    let albedo = Vec3::new(500_000, 500_000, 500_000);
    let m = Material::Lambertian(Lambertian { albedo });
    let rec = head_on_record(m);
    let mut rng = Rng64::new(9);
    let r = Ray::new(Vec3::new(0, 0, 0), Vec3::new(0, 0, -1_000_000));
    let res = m.scatter(&mut rng, r, rec);
    assert!(res.is_some());
    assert_eq!(res.unwrap().0, albedo);
}
