//! Material scattering: diffuse, fuzzy-mirror, and dielectric refraction.
//!
//! Every scatter result and generator state is pinned down by contract as
//! an exact function of the material, the incoming ray, the hit record and
//! the generator state.
//!
//! Two departures from the idealized physics are deliberate and visible in
//! the specs: a metal whose fuzzed reflection degenerates to a near-zero
//! direction absorbs the ray instead of scattering garbage, and a
//! dielectric whose refracted direction degenerates or leaves the numeric
//! domain falls back to scattering along the surface normal.

use crate::fixed::{
    fx_div, fx_mul, fx_sqrt, iabs, lemma_div_bound, lemma_div_strict_bound, lemma_mul_fits,
    lemma_sqrt_floor_mono, lemma_sqrt_floor_unique, lemma_tdiv_mag, lemma_tdiv_nonneg, sqrt_floor,
    tdiv, SCALE,
};
use crate::ray::Ray;
use crate::rng::Rng64;
use crate::vec3::{
    in_box, lemma_dot_fits, lemma_not_near_zero, spec_add, spec_dot, spec_near_zero, spec_neg, spec_reflect, spec_refract, spec_scale, spec_unit, v3, Vec3,
};
use crate::{
    random_scalar, random_unit_vec3, random_vec3_in_unit_sphere, spec_rand, spec_sphere_rec,
    spec_unit_sphere, wf_color, Color, HitRecord, DIR_LIMIT,
};
use vstd::prelude::*;

verus! {

/// Diffuse surface: scatters around the normal, attenuating by its albedo.
#[derive(Clone, Copy, Debug, PartialEq, Eq, Structural)]
pub struct Lambertian {
    pub albedo: Color,
}

/// Reflective surface with a fuzz radius; zero fuzz is a perfect mirror.
#[derive(Clone, Copy, Debug, PartialEq, Eq, Structural)]
pub struct Metal {
    pub albedo: Color,
    pub fuzz: i64,
}

/// Clear refractive surface with the given index of refraction.
#[derive(Clone, Copy, Debug, PartialEq, Eq, Structural)]
pub struct Dielectric {
    pub ir: i64,
}

#[derive(Clone, Copy, Debug, PartialEq, Eq, Structural)]
pub enum Material {
    Lambertian(Lambertian),
    Metal(Metal),
    Dielectric(Dielectric),
}

pub open spec fn wf_lambertian(l: Lambertian) -> bool {
    wf_color(l.albedo)
}

pub open spec fn wf_metal(m: Metal) -> bool {
    &&& wf_color(m.albedo)
    &&& 0 <= m.fuzz <= SCALE
}

/// The index of refraction stays between a tenth and forty, which covers
/// every physical medium and keeps the refraction ratio in the range the
/// fixed-point formulas accept.
pub open spec fn wf_dielectric(d: Dielectric) -> bool {
    100_000 <= d.ir <= 40_000_000
}

pub open spec fn wf_material(m: Material) -> bool {
    match m {
        Material::Lambertian(l) => wf_lambertian(l),
        Material::Metal(mt) => wf_metal(mt),
        Material::Dielectric(d) => wf_dielectric(d),
    }
}

/// A scatter result the integrator can consume: the scattered ray starts
/// at the hit point with a bounded, non-degenerate direction, and the
/// attenuation is a radiance color.
pub open spec fn wf_scatter(res: Option<(Color, Ray)>, p: Vec3) -> bool {
    match res {
        Option::Some(pair) => {
            &&& wf_color(pair.0)
            &&& pair.1.orig == p
            &&& in_box(pair.1.dir, DIR_LIMIT as int)
            &&& !spec_near_zero(pair.1.dir)
        },
        Option::None => true,
    }
}

/// Diffuse scatter: the normal plus a random unit direction, falling back
/// to the bare normal when the two nearly cancel.
pub open spec fn spec_scatter_lambertian(l: Lambertian, s: u64, rec: HitRecord) -> (Option<
    (Color, Ray),
>, int) {
    let a = spec_unit_sphere(s);
    let dir0 = spec_add(rec.normal, a.0);
    let dir = if spec_near_zero(dir0) {
        rec.normal
    } else {
        dir0
    };
    (Some((l.albedo, Ray { orig: rec.p, dir })), a.1)
}

/// Mirror scatter perturbed by `fuzz` times a point in the unit sphere; a
/// degenerate perturbed direction means the ray is absorbed.
pub open spec fn spec_scatter_metal(mt: Metal, s: u64, r: Ray, rec: HitRecord) -> (Option<
    (Color, Ray),
>, int) {
    let reflected = spec_reflect(spec_unit(r.dir), rec.normal);
    let a = spec_sphere_rec(s, 1000);
    let dir = spec_add(reflected, spec_scale(a.0, mt.fuzz as int));
    if spec_near_zero(dir) {
        (None, a.1)
    } else {
        (Some((mt.albedo, Ray { orig: rec.p, dir })), a.1)
    }
}

/// Schlick's polynomial approximation of the Fresnel reflectance.
pub open spec fn spec_reflectance(cosine: int, ref_idx: int) -> int {
    let r0 = tdiv((SCALE - ref_idx) * SCALE, SCALE + ref_idx);
    let r0s = tdiv(r0 * r0, SCALE as int);
    let c1 = SCALE - cosine;
    let c2 = tdiv(c1 * c1, SCALE as int);
    let c4 = tdiv(c2 * c2, SCALE as int);
    let c5 = tdiv(c4 * c1, SCALE as int);
    r0s + tdiv((SCALE - r0s) * c5, SCALE as int)
}

/// Dielectric scatter: refract through the surface unless total internal
/// reflection or the Schlick draw forces a reflection; white attenuation.
pub open spec fn spec_scatter_dielectric(d: Dielectric, s: u64, r: Ray, rec: HitRecord) -> (Option<
    (Color, Ray),
>, int) {
    let ratio = if rec.front_face {
        tdiv((SCALE as int) * (SCALE as int), d.ir as int)
    } else {
        d.ir as int
    };
    let ud = spec_unit(r.dir);
    let d0 = spec_dot(spec_neg(ud), rec.normal);
    let cos = if d0 > SCALE {
        SCALE as int
    } else {
        d0
    };
    let c2 = tdiv(cos * cos, SCALE as int);
    let k0 = SCALE - c2;
    let k = if k0 < 0 {
        0
    } else {
        k0
    };
    let sin = sqrt_floor(k * SCALE);
    let cannot = tdiv(ratio * sin, SCALE as int) > SCALE;
    let pick = if cannot {
        (spec_reflect(ud, rec.normal), s as int)
    } else {
        let a = spec_rand(s);
        if spec_reflectance(cos, ratio) > a.0 {
            (spec_reflect(ud, rec.normal), a.1)
        } else {
            (spec_refract(ud, rec.normal, ratio), a.1)
        }
    };
    let dir = if spec_near_zero(pick.0) || !in_box(pick.0, DIR_LIMIT as int) {
        rec.normal
    } else {
        pick.0
    };
    (Some((v3(SCALE as int, SCALE as int, SCALE as int), Ray { orig: rec.p, dir })), pick.1)
}

/// One scatter, dispatched by material variant.
pub open spec fn spec_scatter(m: Material, s: u64, r: Ray, rec: HitRecord) -> (Option<
    (Color, Ray),
>, int) {
    match m {
        Material::Lambertian(l) => spec_scatter_lambertian(l, s, rec),
        Material::Metal(mt) => spec_scatter_metal(mt, s, r, rec),
        Material::Dielectric(d) => spec_scatter_dielectric(d, s, r, rec),
    }
}

impl Lambertian {
    pub fn scatter(&self, rng: &mut Rng64, _r: Ray, rec: HitRecord) -> (res: Option<(Color, Ray)>)
        requires
            wf_lambertian(*self),
            in_box(rec.normal, 2_000_000),
            !spec_near_zero(rec.normal),
        ensures
            res == spec_scatter_lambertian(*self, old(rng).state, rec).0,
            final(rng).state == spec_scatter_lambertian(*self, old(rng).state, rec).1,
            res is Some,
            wf_scatter(res, rec.p),
    {
        let u = random_unit_vec3(rng);
        let mut scatter_direction = rec.normal.add(u);
        if scatter_direction.near_zero() {
            scatter_direction = rec.normal;
        }
        let scattered = Ray::new(rec.p, scatter_direction);
        Some((self.albedo, scattered))
    }
}

impl Metal {
    pub fn scatter(&self, rng: &mut Rng64, r: Ray, rec: HitRecord) -> (res: Option<(Color, Ray)>)
        requires
            wf_metal(*self),
            crate::wf_ray(r),
            in_box(rec.normal, 2_000_000),
            !spec_near_zero(rec.normal),
        ensures
            res == spec_scatter_metal(*self, old(rng).state, r, rec).0,
            final(rng).state == spec_scatter_metal(*self, old(rng).state, r, rec).1,
            wf_scatter(res, rec.p),
    {
        proof {
            lemma_not_near_zero(r.dir);
        }
        let reflected = r.dir.unit_vector().reflect(rec.normal);
        let f = random_vec3_in_unit_sphere(rng);
        proof {
            lemma_mul_fits(f.x as int, self.fuzz as int, 1_000_000, 1_000_000);
            lemma_mul_fits(f.y as int, self.fuzz as int, 1_000_000, 1_000_000);
            lemma_mul_fits(f.z as int, self.fuzz as int, 1_000_000, 1_000_000);
            lemma_tdiv_mag(f.x as int * self.fuzz, SCALE as int);
            lemma_tdiv_mag(f.y as int * self.fuzz, SCALE as int);
            lemma_tdiv_mag(f.z as int * self.fuzz, SCALE as int);
            lemma_div_bound(iabs(f.x as int * self.fuzz), 1_000_000, SCALE as int);
            lemma_div_bound(iabs(f.y as int * self.fuzz), 1_000_000, SCALE as int);
            lemma_div_bound(iabs(f.z as int * self.fuzz), 1_000_000, SCALE as int);
        }
        let fuzz_step = f.scale(self.fuzz);
        let dir = reflected.add(fuzz_step);
        if dir.near_zero() {
            None
        } else {
            Some((self.albedo, Ray::new(rec.p, dir)))
        }
    }
}

impl Dielectric {
    /// Schlick's reflectance approximation.
    fn reflectance(self, cosine: i64, ref_idx: i64) -> (r: i64)
        requires
            1 <= ref_idx <= 40_000_000,
            -13_000_000 <= cosine <= SCALE,
        ensures
            r == spec_reflectance(cosine as int, ref_idx as int),
    {
        let r0 = fx_div(SCALE - ref_idx, SCALE + ref_idx);
        proof {
            lemma_tdiv_mag((SCALE - ref_idx) * (SCALE as int), (SCALE + ref_idx) as int);
            assert(iabs((SCALE - ref_idx) * (SCALE as int)) == iabs((SCALE - ref_idx) as int)
                * 1_000_000);
            lemma_div_strict_bound(
                iabs((SCALE - ref_idx) as int) * 1_000_000,
                1_000_000,
                (SCALE + ref_idx) as int,
            );
            lemma_mul_fits(r0 as int, r0 as int, 1_000_000, 1_000_000);
            assert(0 <= r0 * r0) by (nonlinear_arith);
            lemma_tdiv_nonneg(r0 * r0, SCALE as int);
            lemma_div_bound(r0 * r0, 1_000_000, SCALE as int);
        }
        let r0s = fx_mul(r0, r0);
        let c1 = SCALE - cosine;
        proof {
            lemma_mul_fits(c1 as int, c1 as int, 14_000_000, 14_000_000);
            assert(0 <= c1 * c1) by (nonlinear_arith);
            lemma_tdiv_nonneg(c1 * c1, SCALE as int);
            lemma_div_bound(c1 * c1, 196_000_000, SCALE as int);
        }
        let c2 = fx_mul(c1, c1);
        proof {
            lemma_mul_fits(c2 as int, c2 as int, 196_000_000, 196_000_000);
            assert(0 <= c2 * c2) by (nonlinear_arith)
                requires
                    0 <= c2,
            ;
            lemma_tdiv_nonneg(c2 * c2, SCALE as int);
            lemma_div_bound(c2 * c2, 38_416_000_000, SCALE as int);
        }
        let c4 = fx_mul(c2, c2);
        proof {
            lemma_mul_fits(c4 as int, c1 as int, 38_416_000_000, 14_000_000);
            assert(0 <= c4 * c1) by (nonlinear_arith)
                requires
                    0 <= c4,
                    0 <= c1,
            ;
            lemma_tdiv_nonneg(c4 * c1, SCALE as int);
            lemma_div_bound(c4 * c1, 537_824_000_000, SCALE as int);
        }
        let c5 = fx_mul(c4, c1);
        proof {
            lemma_mul_fits((SCALE - r0s) as int, c5 as int, 1_000_000, 537_824_000_000);
            assert(0 <= (SCALE - r0s) * c5) by (nonlinear_arith)
                requires
                    0 <= SCALE - r0s,
                    0 <= c5,
            ;
            lemma_tdiv_nonneg((SCALE - r0s) * c5, SCALE as int);
            lemma_div_bound((SCALE - r0s) * c5, 537_824_000_000, SCALE as int);
        }
        let f = fx_mul(SCALE - r0s, c5);
        r0s + f
    }

    pub fn scatter(&self, rng: &mut Rng64, r: Ray, rec: HitRecord) -> (res: Option<(Color, Ray)>)
        requires
            wf_dielectric(*self),
            crate::wf_ray(r),
            in_box(rec.normal, 2_000_000),
            !spec_near_zero(rec.normal),
        ensures
            res == spec_scatter_dielectric(*self, old(rng).state, r, rec).0,
            final(rng).state == spec_scatter_dielectric(*self, old(rng).state, r, rec).1,
            res is Some,
            wf_scatter(res, rec.p),
    {
        let refraction_ratio: i64 = if rec.front_face {
            proof {
                lemma_tdiv_nonneg((SCALE as int) * (SCALE as int), self.ir as int);
                lemma_div_bound((SCALE as int) * (SCALE as int), 10_000_000, self.ir as int);
            }
            fx_div(SCALE, self.ir)
        } else {
            self.ir
        };
        proof {
            if rec.front_face {
                vstd::arithmetic::div_mod::lemma_div_is_ordered_by_denominator(
                    1_000_000_000_000,
                    self.ir as int,
                    40_000_000,
                );
                vstd::arithmetic::div_mod::lemma_fundamental_div_mod_converse(
                    1_000_000_000_000,
                    40_000_000,
                    25_000,
                    0,
                );
            }
            lemma_not_near_zero(r.dir);
        }
        let unit_direction = r.dir.unit_vector();
        proof {
            lemma_dot_fits(spec_neg(unit_direction), rec.normal, 2_000_000, 2_000_000);
            lemma_tdiv_mag(
                spec_neg(unit_direction).x * rec.normal.x + spec_neg(unit_direction).y
                    * rec.normal.y + spec_neg(unit_direction).z * rec.normal.z,
                SCALE as int,
            );
            lemma_div_bound(
                iabs(
                    spec_neg(unit_direction).x * rec.normal.x + spec_neg(unit_direction).y
                        * rec.normal.y + spec_neg(unit_direction).z * rec.normal.z,
                ),
                12_000_000,
                SCALE as int,
            );
        }
        let d0 = unit_direction.neg().dot(rec.normal);
        let cos_theta: i64 = if d0 > SCALE {
            SCALE
        } else {
            d0
        };
        proof {
            lemma_mul_fits(cos_theta as int, cos_theta as int, 12_000_000, 12_000_000);
            assert(0 <= cos_theta * cos_theta) by (nonlinear_arith);
            lemma_tdiv_nonneg(cos_theta * cos_theta, SCALE as int);
        }
        let c2 = fx_mul(cos_theta, cos_theta);
        let k0 = SCALE - c2;
        let k: i64 = if k0 < 0 {
            0
        } else {
            k0
        };
        proof {
            crate::fixed::lemma_sqrt_floor_bounds((k as int) * (SCALE as int));
            lemma_sqrt_floor_mono((k as int) * (SCALE as int), 1_000_000_000_000);
            lemma_sqrt_floor_unique(1_000_000_000_000, 1_000_000);
        }
        let sin_theta = fx_sqrt(k);
        proof {
            lemma_mul_fits(refraction_ratio as int, sin_theta as int, 40_000_000, 1_000_000);
        }
        let rs = fx_mul(refraction_ratio, sin_theta);
        let cannot_refract = rs > SCALE;
        let dir0: Vec3;
        if cannot_refract {
            dir0 = unit_direction.reflect(rec.normal);
        } else {
            let refl = self.reflectance(cos_theta, refraction_ratio);
            let rnd = random_scalar(rng);
            if refl > rnd {
                dir0 = unit_direction.reflect(rec.normal);
            } else {
                dir0 = unit_direction.refract(rec.normal, refraction_ratio);
            }
        }
        let dir = if dir0.near_zero() || !dir0.within(DIR_LIMIT) {
            rec.normal
        } else {
            dir0
        };
        let white = Vec3 { x: SCALE, y: SCALE, z: SCALE };
        Some((white, Ray::new(rec.p, dir)))
    }
}

impl Material {
    /// One scatter event: the attenuation color and the outgoing ray, or
    /// absorption.
    pub fn scatter(&self, rng: &mut Rng64, r: Ray, rec: HitRecord) -> (res: Option<(Color, Ray)>)
        requires
            wf_material(*self),
            crate::wf_ray(r),
            in_box(rec.normal, 2_000_000),
            !spec_near_zero(rec.normal),
        ensures
            res == spec_scatter(*self, old(rng).state, r, rec).0,
            final(rng).state == spec_scatter(*self, old(rng).state, r, rec).1,
            wf_scatter(res, rec.p),
    {
        match self {
            Material::Lambertian(l) => l.scatter(rng, r, rec),
            Material::Metal(mt) => mt.scatter(rng, r, rec),
            Material::Dielectric(d) => d.scatter(rng, r, rec),
        }
    }
}

} // verus!
