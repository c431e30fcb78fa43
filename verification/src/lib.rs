//! A stochastic path tracer over fixed-point arithmetic.
//!
//! Every scalar is an `i64` holding a real number times [`fixed::SCALE`]
//! (one millionth resolution). Each operation's contract pins its result
//! down to an exact integer formula, so the whole rendering pipeline is a
//! mathematical function of the scene, the camera and the seed — which is
//! also how the determinism of the renderer is proved.

use vstd::prelude::*;

pub mod camera;
pub mod fixed;
pub mod materials;
pub mod objects;
pub mod ray;
pub mod render;
pub mod rng;
pub mod vec3;

use crate::fixed::{
    clamp_spec, fx_mul, lemma_div_bound, lemma_mul_fits, lemma_tdiv_mul_cancel, lemma_tdiv_nonneg,
    tdiv, SCALE,
};
use crate::objects::Object;
use crate::materials::{wf_material, Material};
use crate::ray::Ray;
use crate::rng::{spec_step, spec_unit_of, Rng64};
use crate::vec3::{
    in_box, lemma_dot_fits, spec_dot, spec_length_squared, spec_near_zero, spec_neg, spec_unit, v3,
    Vec3,
};

verus! {

/// A location in space.
pub type Point3 = Vec3;

/// A direction of unit-ish length.
pub type UnitVec3 = Vec3;

/// A color; channels hold radiance in `[0, SCALE]` once resolved.
pub type Color = Vec3;

/// Scene geometry (centers, radii, hit points) stays within this many
/// fixed-point steps of the origin: two thousand units.
pub const POS_LIMIT: i64 = 2_000_000_000;

/// Ray directions stay within two hundred units per component.
pub const DIR_LIMIT: i64 = 200_000_000;

/// Lower end of the search range for hits: a thousandth of a unit, which
/// keeps a scattered ray from immediately hitting its own surface again.
pub const T_MIN: i64 = 1_000;

/// The far horizon standing in for an unbounded search range: a hundred
/// thousand units along the ray.
pub const T_HORIZON: i64 = 100_000_000_000;

/// What a primitive reports about its nearest intersection with a ray.
#[derive(Clone, Copy, Debug, PartialEq, Eq, Structural)]
pub struct HitRecord {
    pub p: Point3,
    pub normal: UnitVec3,
    pub material: Material,
    pub t: i64,
    pub front_face: bool,
}

/// The record built from a raw outward normal: the stored normal is
/// flipped to face against the incoming direction.
pub open spec fn spec_hit_record(
    p: Vec3,
    direction: Vec3,
    t: i64,
    outward: Vec3,
    m: Material,
) -> HitRecord {
    let ff = spec_dot(direction, outward) < 0;
    HitRecord {
        p,
        normal: if ff {
            outward
        } else {
            spec_neg(outward)
        },
        material: m,
        t,
        front_face: ff,
    }
}

impl HitRecord {
    pub fn new(p: Point3, direction: Vec3, t: i64, outward_normal: UnitVec3, m: Material) -> (r:
        Self)
        requires
            in_box(direction, 200_000_000),
            in_box(outward_normal, 2_000_000),
        ensures
            r == spec_hit_record(p, direction, t, outward_normal, m),
    {
        proof {
            lemma_dot_fits(direction, outward_normal, 200_000_000, 2_000_000);
        }
        let front_face = direction.dot(outward_normal) < 0;
        let normal = if front_face {
            outward_normal
        } else {
            outward_normal.neg()
        };
        HitRecord { p, normal, material: m, t, front_face }
    }
}

/// A ray the renderer can work with: origin in the world box, direction
/// bounded and not degenerate.
pub open spec fn wf_ray(r: Ray) -> bool {
    &&& in_box(r.orig, POS_LIMIT as int)
    &&& in_box(r.dir, DIR_LIMIT as int)
    &&& !spec_near_zero(r.dir)
}

/// Channels of a radiance color stay between black and white.
pub open spec fn wf_color(c: Color) -> bool {
    &&& 0 <= c.x <= SCALE
    &&& 0 <= c.y <= SCALE
    &&& 0 <= c.z <= SCALE
}

/// A hit record the integrator can consume.
pub open spec fn wf_hit(h: HitRecord) -> bool {
    &&& in_box(h.p, POS_LIMIT as int)
    &&& in_box(h.normal, 2_000_000)
    &&& !spec_near_zero(h.normal)
    &&& wf_material(h.material)
}

pub open spec fn wf_hit_opt(res: Option<HitRecord>) -> bool {
    match res {
        Option::Some(h) => wf_hit(h),
        Option::None => true,
    }
}

/// Uniform draw in `[0, 1)` units and the state after it.
pub open spec fn spec_rand(s: u64) -> (int, int) {
    (spec_unit_of(spec_step(s) as u64), spec_step(s))
}

/// Uniform draw in `[min, max)` units and the state after it.
pub open spec fn spec_rand_mm(s: u64, min: i64, max: i64) -> (int, int) {
    let s1 = spec_step(s);
    (min + tdiv((max - min) * spec_unit_of(s1 as u64), SCALE as int), s1)
}

/// Three uniform draws in `[0, 1)`, one per component.
pub open spec fn spec_rand3(s: u64) -> (Vec3, int) {
    let s1 = spec_step(s);
    let s2 = spec_step(s1 as u64);
    let s3 = spec_step(s2 as u64);
    (
        v3(spec_unit_of(s1 as u64), spec_unit_of(s2 as u64), spec_unit_of(s3 as u64)),
        s3,
    )
}

/// Three uniform draws in `[min, max)`, one per component.
pub open spec fn spec_rand3_mm(s: u64, min: i64, max: i64) -> (Vec3, int) {
    let a = spec_rand_mm(s, min, max);
    let b = spec_rand_mm(a.1 as u64, min, max);
    let c = spec_rand_mm(b.1 as u64, min, max);
    (v3(a.0, b.0, c.0), c.1)
}

/// Rejection sampling for a point inside the unit sphere, with its
/// iteration cap. Runs of bad luck longer than the cap fall back to a
/// fixed interior point.
#[verifier::opaque]
pub open spec fn spec_sphere_rec(s: u64, fuel: nat) -> (Vec3, int)
    decreases fuel,
{
    if fuel == 0 {
        (Vec3 { x: 500_000, y: 0, z: 0 }, s as int)
    } else {
        let a = spec_rand3_mm(s, -1_000_000i64, 1_000_000i64);
        if 1 <= spec_length_squared(a.0) < 1_000_000 {
            (a.0, a.1)
        } else {
            spec_sphere_rec(a.1 as u64, (fuel - 1) as nat)
        }
    }
}

/// A random point inside the unit sphere, normalized to unit length.
pub open spec fn spec_unit_sphere(s: u64) -> (Vec3, int) {
    let a = spec_sphere_rec(s, 1000);
    (spec_unit(a.0), a.1)
}

/// Rejection sampling for a point inside the unit disk of the x-y plane,
/// with its iteration cap; the fallback is the disk's center.
#[verifier::opaque]
pub open spec fn spec_disk_rec(s: u64, fuel: nat) -> (Vec3, int)
    decreases fuel,
{
    if fuel == 0 {
        (Vec3 { x: 0, y: 0, z: 0 }, s as int)
    } else {
        let a = spec_rand_mm(s, -1_000_000i64, 1_000_000i64);
        let b = spec_rand_mm(a.1 as u64, -1_000_000i64, 1_000_000i64);
        let p = v3(a.0, b.0, 0);
        if spec_length_squared(p) < 1_000_000 {
            (p, b.1)
        } else {
            spec_disk_rec(b.1 as u64, (fuel - 1) as nat)
        }
    }
}

/// One unfolding step of the sphere sampler's recursion.
proof fn lemma_sphere_unfold(s: u64, fuel: nat)
    requires
        1 <= fuel,
    ensures
        ({
            let a = spec_rand3_mm(s, -1_000_000i64, 1_000_000i64);
            spec_sphere_rec(s, fuel) == if 1 <= spec_length_squared(a.0) < 1_000_000 {
                (a.0, a.1)
            } else {
                spec_sphere_rec(a.1 as u64, (fuel - 1) as nat)
            }
        }),
{
    reveal_with_fuel(spec_sphere_rec, 1);
}

/// The sphere sampler out of fuel yields the fixed fallback point.
proof fn lemma_sphere_base(s: u64)
    ensures
        spec_sphere_rec(s, 0) == ((Vec3 { x: 500_000i64, y: 0i64, z: 0i64 }, s as int)),
{
    reveal_with_fuel(spec_sphere_rec, 1);
}

/// One unfolding step of the disk sampler's recursion.
proof fn lemma_disk_unfold(s: u64, fuel: nat)
    requires
        1 <= fuel,
    ensures
        ({
            let a = spec_rand_mm(s, -1_000_000i64, 1_000_000i64);
            let b = spec_rand_mm(a.1 as u64, -1_000_000i64, 1_000_000i64);
            let p = v3(a.0, b.0, 0);
            spec_disk_rec(s, fuel) == if spec_length_squared(p) < 1_000_000 {
                (p, b.1)
            } else {
                spec_disk_rec(b.1 as u64, (fuel - 1) as nat)
            }
        }),
{
    reveal_with_fuel(spec_disk_rec, 1);
}

/// The disk sampler out of fuel yields the center of the disk.
proof fn lemma_disk_base(s: u64)
    ensures
        spec_disk_rec(s, 0) == ((Vec3 { x: 0i64, y: 0i64, z: 0i64 }, s as int)),
{
    reveal_with_fuel(spec_disk_rec, 1);
}

/// The sky color at a given clamped vertical coordinate of the unit ray
/// direction: a linear blend from white at the bottom to sky blue at the
/// top.
pub open spec fn spec_gradient(y: int) -> Color {
    let t = tdiv((clamp_spec(y, -(SCALE as int), SCALE as int) + SCALE) * 500_000, SCALE as int);
    v3(
        (SCALE - t) + tdiv(t * 500_000, SCALE as int),
        (SCALE - t) + tdiv(t * 700_000, SCALE as int),
        (SCALE - t) + tdiv(t * 1_000_000, SCALE as int),
    )
}

/// The background a ray escapes into.
pub open spec fn spec_background(r: Ray) -> Color {
    spec_gradient(spec_unit(r.dir).y as int)
}

/// Facts every caller of the gradient needs: each channel is a radiance
/// value and the blend parameter stays in range.
proof fn lemma_gradient_wf(y: int)
    ensures
        wf_color(spec_gradient(y)),
        spec_gradient(y).z == SCALE,
{
    let yc = clamp_spec(y, -(SCALE as int), SCALE as int);
    let t = tdiv((yc + SCALE) * 500_000, SCALE as int);
    assert((yc + SCALE) * 500_000 >= 0) by (nonlinear_arith)
        requires
            yc + SCALE >= 0,
    ;
    lemma_tdiv_nonneg((yc + SCALE) * 500_000, SCALE as int);
    lemma_div_bound((yc + SCALE) * 500_000, 1_000_000, SCALE as int);
    assert(0 <= t <= SCALE);
    assert(t * 500_000 >= 0 && t * 700_000 >= 0) by (nonlinear_arith)
        requires
            t >= 0,
    ;
    lemma_tdiv_nonneg(t * 500_000, SCALE as int);
    lemma_tdiv_nonneg(t * 700_000, SCALE as int);
    lemma_div_bound(t * 500_000, t, SCALE as int);
    lemma_div_bound(t * 700_000, t, SCALE as int);
    lemma_tdiv_mul_cancel(t, SCALE as int);
}

/// The background gradient is monotone per channel: as the vertical
/// coordinate climbs from bottom to top, the red and green channels only
/// descend toward sky blue and the blue channel stays at one, so the color
/// sweeps monotonically from white to sky blue.
pub proof fn lemma_gradient_monotone(y1: int, y2: int)
    requires
        y1 <= y2,
    ensures
        spec_gradient(y1).x >= spec_gradient(y2).x,
        spec_gradient(y1).y >= spec_gradient(y2).y,
        spec_gradient(y1).z == spec_gradient(y2).z,
{
    lemma_gradient_wf(y1);
    lemma_gradient_wf(y2);
    let c1 = clamp_spec(y1, -(SCALE as int), SCALE as int);
    let c2 = clamp_spec(y2, -(SCALE as int), SCALE as int);
    let t1 = tdiv((c1 + SCALE) * 500_000, SCALE as int);
    let t2 = tdiv((c2 + SCALE) * 500_000, SCALE as int);
    assert((c1 + SCALE) * 500_000 >= 0 && (c2 + SCALE) * 500_000 >= 0 && (c1 + SCALE) * 500_000
        <= (c2 + SCALE) * 500_000) by (nonlinear_arith)
        requires
            0 <= c1 + SCALE <= c2 + SCALE,
    ;
    lemma_tdiv_nonneg((c1 + SCALE) * 500_000, SCALE as int);
    lemma_tdiv_nonneg((c2 + SCALE) * 500_000, SCALE as int);
    vstd::arithmetic::div_mod::lemma_div_is_ordered(
        (c1 + SCALE) * 500_000,
        (c2 + SCALE) * 500_000,
        SCALE as int,
    );
    assert(0 <= t1 <= t2);
    lemma_gradient_channel_mono(t1, t2, 500_000);
    lemma_gradient_channel_mono(t1, t2, 700_000);
    lemma_tdiv_mul_cancel(t1, SCALE as int);
    lemma_tdiv_mul_cancel(t2, SCALE as int);
}

/// One blended channel only descends as the blend parameter grows: the
/// blend never adds back more than the white it removes.
proof fn lemma_gradient_channel_mono(t1: int, t2: int, ch: int)
    requires
        0 <= t1 <= t2,
        0 <= ch <= 1_000_000,
    ensures
        (SCALE - t1) + tdiv(t1 * ch, SCALE as int) >= (SCALE - t2) + tdiv(t2 * ch, SCALE as int),
{
    let delta = t2 - t1;
    assert(t1 * ch >= 0 && t2 * ch >= 0 && t2 * ch <= t1 * ch + delta * 1_000_000)
        by (nonlinear_arith)
        requires
            0 <= t1 <= t2,
            0 <= ch <= 1_000_000,
            delta == t2 - t1,
    ;
    lemma_tdiv_nonneg(t1 * ch, SCALE as int);
    lemma_tdiv_nonneg(t2 * ch, SCALE as int);
    vstd::arithmetic::div_mod::lemma_div_is_ordered(
        t2 * ch,
        t1 * ch + delta * 1_000_000,
        SCALE as int,
    );
    vstd::arithmetic::div_mod::lemma_hoist_over_denominator(t1 * ch, delta, 1_000_000nat);
}

/// The gradient's endpoints are exactly white and exactly sky blue.
pub proof fn lemma_gradient_endpoints()
    ensures
        spec_gradient(-(SCALE as int)) == v3(SCALE as int, SCALE as int, SCALE as int),
        spec_gradient(SCALE as int) == v3(500_000, 700_000, 1_000_000),
{
    lemma_tdiv_mul_cancel(0, SCALE as int);
    lemma_tdiv_mul_cancel(1_000_000, SCALE as int);
    lemma_tdiv_mul_cancel(500_000, SCALE as int);
    lemma_tdiv_mul_cancel(700_000, SCALE as int);
    assert(tdiv((1_000_000int + 1_000_000) * 500_000, SCALE as int) == 1_000_000) by {
        lemma_tdiv_mul_cancel(2_000_000, 500_000);
        vstd::arithmetic::div_mod::lemma_fundamental_div_mod_converse(
            1_000_000_000_000,
            1_000_000,
            1_000_000,
            0,
        );
    }
    assert(tdiv((-1_000_000int + 1_000_000) * 500_000, SCALE as int) == 0);
}

/// The sky a ray escapes into: a vertical gradient from white to blue.
pub fn background(r: Ray) -> (c: Color)
    requires
        wf_ray(r),
    ensures
        c == spec_background(r),
        wf_color(c),
{
    proof {
        crate::vec3::lemma_not_near_zero(r.dir);
    }
    let unit_direction = r.dir.unit_vector();
    let y = crate::fixed::clamp(unit_direction.y, -SCALE, SCALE);
    proof {
        lemma_mul_fits((y + SCALE) as int, 500_000, 2_000_000, 500_000);
        lemma_gradient_wf(unit_direction.y as int);
        assert((y + SCALE) * 500_000 >= 0) by (nonlinear_arith)
            requires
                y + SCALE >= 0,
        ;
        lemma_tdiv_nonneg((y + SCALE) * 500_000, SCALE as int);
        lemma_div_bound((y + SCALE) * 500_000, 1_000_000, SCALE as int);
    }
    let t = crate::fixed::fx_mul(y + SCALE, 500_000);
    proof {
        lemma_mul_fits(t as int, 1_000_000, 1_000_000, 1_000_000);
        assert(t * 500_000 >= 0 && t * 700_000 >= 0 && t * 1_000_000 >= 0) by (nonlinear_arith)
            requires
                t >= 0,
        ;
        lemma_tdiv_nonneg(t * 500_000, SCALE as int);
        lemma_tdiv_nonneg(t * 700_000, SCALE as int);
        lemma_tdiv_nonneg(t * 1_000_000, SCALE as int);
        lemma_div_bound(t * 500_000, t as int, SCALE as int);
        lemma_div_bound(t * 700_000, t as int, SCALE as int);
        lemma_tdiv_mul_cancel(t as int, SCALE as int);
    }
    let white_part = SCALE - t;
    Vec3 {
        x: white_part + fx_mul(t, 500_000),
        y: white_part + fx_mul(t, 700_000),
        z: white_part + fx_mul(t, 1_000_000),
    }
}

/// Filters a radiance color through an attenuation color. The result
/// never exceeds either factor in any channel: each scatter event can only
/// lose energy, so a bounce chain stays below every albedo along it.
pub fn attenuate(a: Color, c: Color) -> (r: Color)
    requires
        wf_color(a),
        wf_color(c),
    ensures
        r == crate::vec3::spec_hadamard(a, c),
        wf_color(r),
        r.x <= a.x && r.y <= a.y && r.z <= a.z,
        r.x <= c.x && r.y <= c.y && r.z <= c.z,
{
    proof {
        lemma_dot_fits(a, c, 1_000_000, 1_000_000);
        assert(a.x * c.x >= 0 && a.y * c.y >= 0 && a.z * c.z >= 0 && a.x * c.x <= a.x * 1_000_000
            && a.y * c.y <= a.y * 1_000_000 && a.z * c.z <= a.z * 1_000_000 && a.x * c.x <= c.x
            * 1_000_000 && a.y * c.y <= c.y * 1_000_000 && a.z * c.z <= c.z * 1_000_000)
            by (nonlinear_arith)
            requires
                0 <= a.x <= 1_000_000,
                0 <= a.y <= 1_000_000,
                0 <= a.z <= 1_000_000,
                0 <= c.x <= 1_000_000,
                0 <= c.y <= 1_000_000,
                0 <= c.z <= 1_000_000,
        ;
        lemma_tdiv_nonneg(a.x * c.x, SCALE as int);
        lemma_tdiv_nonneg(a.y * c.y, SCALE as int);
        lemma_tdiv_nonneg(a.z * c.z, SCALE as int);
        lemma_div_bound(a.x * c.x, a.x as int, SCALE as int);
        lemma_div_bound(a.y * c.y, a.y as int, SCALE as int);
        lemma_div_bound(a.z * c.z, a.z as int, SCALE as int);
        lemma_div_bound(a.x * c.x, c.x as int, SCALE as int);
        lemma_div_bound(a.y * c.y, c.y as int, SCALE as int);
        lemma_div_bound(a.z * c.z, c.z as int, SCALE as int);
    }
    a.hadamard(c)
}

/// The traced radiance along a ray and the generator state after tracing
/// it: black once the bounce budget is exhausted, the sky when nothing is
/// hit, and otherwise the scattered recursion filtered by the material's
/// attenuation.
pub open spec fn spec_ray_color(s: u64, r: Ray, world: Seq<Object>, depth: u32) -> (Color, int)
    decreases depth,
{
    if depth == 0 {
        (v3(0, 0, 0), s as int)
    } else {
        match crate::objects::spec_hit_world(world, r, T_MIN, T_HORIZON) {
            Option::Some(rec) => {
                let sc = crate::materials::spec_scatter(rec.material, s, r, rec);
                match sc.0 {
                    Option::Some(pair) => {
                        let rc = spec_ray_color(sc.1 as u64, pair.1, world, (depth - 1) as u32);
                        (crate::vec3::spec_hadamard(pair.0, rc.0), rc.1)
                    },
                    Option::None => (v3(0, 0, 0), sc.1),
                }
            },
            Option::None => (spec_background(r), s as int),
        }
    }
}

/// Traces one ray through the scene. A bounce budget of zero returns
/// exactly black whatever the ray and the scene; every returned channel
/// stays between black and white.
pub fn ray_color(rng: &mut Rng64, r: Ray, world: &[Object], depth: u32) -> (c: Color)
    requires
        wf_ray(r),
        crate::objects::wf_world(world@),
    ensures
        c == spec_ray_color(old(rng).state, r, world@, depth).0,
        final(rng).state == spec_ray_color(old(rng).state, r, world@, depth).1,
        wf_color(c),
        depth == 0 ==> c == (Vec3 { x: 0i64, y: 0i64, z: 0i64 }) && final(rng).state == old(
            rng,
        ).state,
    decreases depth,
{
    if depth == 0 {
        return Vec3 { x: 0, y: 0, z: 0 };
    }
    match crate::objects::hit(world, r, T_MIN, T_HORIZON) {
        Some(rec) => match rec.material.scatter(rng, r, rec) {
            Some((attenuation, scattered)) => {
                let rc = ray_color(rng, scattered, world, depth - 1);
                attenuate(attenuation, rc)
            },
            None => Vec3 { x: 0, y: 0, z: 0 },
        },
        None => background(r),
    }
}

/// One output channel: average over the samples, gamma-correct with a
/// square root, clamp just below white, and scale to a byte.
pub open spec fn spec_tone_channel(v: i64, samples: u32) -> int {
    let avg = v / (samples as i64);
    let g = crate::fixed::sqrt_floor(avg * SCALE);
    let c = clamp_spec(g, 0, 999_000);
    (c * 256) / (SCALE as int)
}

/// The tone-mapped byte triple of an accumulated pixel color.
pub open spec fn spec_to_rgb8(c: Color, samples: u32) -> (int, int, int) {
    (
        spec_tone_channel(c.x, samples),
        spec_tone_channel(c.y, samples),
        spec_tone_channel(c.z, samples),
    )
}

fn tone_channel(v: i64, samples: u32) -> (r: u8)
    requires
        1 <= samples,
        0 <= v <= (samples as int) * (SCALE as int),
    ensures
        r == spec_tone_channel(v, samples),
{
    proof {
        lemma_div_bound(v as int, SCALE as int, samples as int);
        lemma_tdiv_nonneg(v as int, samples as int);
    }
    let avg = ((v as u64) / (samples as u64)) as i64;
    proof {
        crate::fixed::lemma_sqrt_floor_bounds((avg as int) * (SCALE as int));
        crate::fixed::lemma_sqrt_floor_mono((avg as int) * (SCALE as int), 1_000_000_000_000);
        crate::fixed::lemma_sqrt_floor_unique(1_000_000_000_000, 1_000_000);
    }
    let g = crate::fixed::fx_sqrt(avg);
    let c = crate::fixed::clamp(g, 0, 999_000);
    proof {
        crate::fixed::lemma_div_strict_bound((c as int) * 256, 256, SCALE as int);
        vstd::arithmetic::div_mod::lemma_div_pos_is_pos((c as int) * 256, SCALE as int);
    }
    ((c as u64) * 256 / 1_000_000) as u8
}

/// Resolves an accumulated pixel color into one byte triple: divide by
/// the sample count, gamma-correct for gamma two, clamp to just below
/// white, and scale to `[0, 255]`.
pub fn to_rgb8(pixel_color: Color, samples_per_pixel: u32) -> (rgb: (u8, u8, u8))
    requires
        1 <= samples_per_pixel,
        0 <= pixel_color.x <= (samples_per_pixel as int) * (SCALE as int),
        0 <= pixel_color.y <= (samples_per_pixel as int) * (SCALE as int),
        0 <= pixel_color.z <= (samples_per_pixel as int) * (SCALE as int),
    ensures
        rgb.0 == spec_to_rgb8(pixel_color, samples_per_pixel).0,
        rgb.1 == spec_to_rgb8(pixel_color, samples_per_pixel).1,
        rgb.2 == spec_to_rgb8(pixel_color, samples_per_pixel).2,
{
    (
        tone_channel(pixel_color.x, samples_per_pixel),
        tone_channel(pixel_color.y, samples_per_pixel),
        tone_channel(pixel_color.z, samples_per_pixel),
    )
}

/// Uniform scalar in `[0, 1)` units.
pub fn random_scalar(rng: &mut Rng64) -> (r: i64)
    ensures
        final(rng).state == spec_rand(old(rng).state).1,
        r == spec_rand(old(rng).state).0,
        0 <= r < SCALE,
{
    rng.next_unit()
}

/// Uniform scalar in `[min, max)` units (or exactly `min` when the range
/// is empty).
pub fn random_scalar_mm(rng: &mut Rng64, min: i64, max: i64) -> (r: i64)
    requires
        -1_000_000_000_000 <= min <= max <= 1_000_000_000_000,
    ensures
        final(rng).state == spec_rand_mm(old(rng).state, min, max).1,
        r == spec_rand_mm(old(rng).state, min, max).0,
        min <= r <= max,
{
    let u = rng.next_unit();
    let span = max - min;
    proof {
        lemma_mul_fits(span as int, u as int, 2_000_000_000_000, 1_000_000);
        assert(0 <= span * u) by (nonlinear_arith)
            requires
                0 <= span,
                0 <= u,
        ;
        assert(span * u <= span * 1_000_000) by (nonlinear_arith)
            requires
                0 <= span,
                u <= 1_000_000,
        ;
        lemma_tdiv_nonneg(span * u, SCALE as int);
        lemma_div_bound(span * u, span as int, SCALE as int);
    }
    let off = crate::fixed::fx_mul(span, u);
    min + off
}

/// A vector whose components are uniform in `[0, 1)`.
pub fn random_vec3(rng: &mut Rng64) -> (r: Vec3)
    ensures
        final(rng).state == spec_rand3(old(rng).state).1,
        r == spec_rand3(old(rng).state).0,
        in_box(r, 1_000_000),
        0 <= r.x && 0 <= r.y && 0 <= r.z,
{
    let x = rng.next_unit();
    let y = rng.next_unit();
    let z = rng.next_unit();
    Vec3 { x, y, z }
}

/// A vector whose components are uniform in `[min, max)`.
pub fn random_vec3_mm(rng: &mut Rng64, min: i64, max: i64) -> (r: Vec3)
    requires
        -1_000_000_000_000 <= min <= max <= 1_000_000_000_000,
    ensures
        final(rng).state == spec_rand3_mm(old(rng).state, min, max).1,
        r == spec_rand3_mm(old(rng).state, min, max).0,
        min <= r.x <= max,
        min <= r.y <= max,
        min <= r.z <= max,
{
    let x = random_scalar_mm(rng, min, max);
    let y = random_scalar_mm(rng, min, max);
    let z = random_scalar_mm(rng, min, max);
    Vec3 { x, y, z }
}

/// A point inside the unit sphere, by rejection sampling. Points closer
/// than a thousandth of a unit to the center are rejected as well: they
/// carry no usable direction. After a thousand rejections the fixed
/// interior point half a unit along the x axis stands in.
#[verifier::rlimit(100)]
pub fn random_vec3_in_unit_sphere(rng: &mut Rng64) -> (p: Vec3)
    ensures
        final(rng).state == spec_sphere_rec(old(rng).state, 1000).1,
        p == spec_sphere_rec(old(rng).state, 1000).0,
        in_box(p, 1_000_000),
        1 <= spec_length_squared(p) < 1_000_000,
{
    let mut i: u32 = 0;
    while i < 1000
        invariant
            i <= 1000,
            spec_sphere_rec(old(rng).state, 1000) == spec_sphere_rec(rng.state, (1000 - i) as nat),
        decreases 1000 - i,
    {
        let ghost si: u64 = rng.state;
        proof {
            lemma_sphere_unfold(si, (1000 - i) as nat);
        }
        let p = random_vec3_mm(rng, -1_000_000, 1_000_000);
        proof {
            lemma_dot_fits(p, p, 1_000_000, 1_000_000);
        }
        let ls = p.length_squared();
        if ls >= 1 && ls < 1_000_000 {
            return p;
        }
        i = i + 1;
    }
    proof {
        lemma_sphere_base(rng.state);
        vstd::arithmetic::div_mod::lemma_fundamental_div_mod_converse(
            250_000_000_000,
            1_000_000,
            250_000,
            0,
        );
        let fb = Vec3 { x: 500_000i64, y: 0i64, z: 0i64 };
        assert(fb.x * fb.x + fb.y * fb.y + fb.z * fb.z == 250_000_000_000int) by (nonlinear_arith)
            requires
                fb.x == 500_000i64 && fb.y == 0i64 && fb.z == 0i64,
        ;
        lemma_tdiv_nonneg(250_000_000_000, SCALE as int);
        assert(spec_length_squared(fb) == 250_000);
    }
    Vec3 { x: 500_000, y: 0, z: 0 }
}

/// A random direction of unit length: a sphere sample, normalized.
pub fn random_unit_vec3(rng: &mut Rng64) -> (r: Vec3)
    ensures
        final(rng).state == spec_unit_sphere(old(rng).state).1,
        r == spec_unit_sphere(old(rng).state).0,
        in_box(r, 2_000_000),
{
    let p = random_vec3_in_unit_sphere(rng);
    p.unit_vector()
}

/// A point inside the unit disk of the lens plane, by rejection sampling;
/// after a thousand rejections the center of the disk stands in.
pub fn random_vec3_in_unit_disk(rng: &mut Rng64) -> (p: Vec3)
    ensures
        final(rng).state == spec_disk_rec(old(rng).state, 1000).1,
        p == spec_disk_rec(old(rng).state, 1000).0,
        in_box(p, 1_000_000),
        spec_length_squared(p) < 1_000_000,
        p.z == 0,
{
    let mut i: u32 = 0;
    while i < 1000
        invariant
            i <= 1000,
            spec_disk_rec(old(rng).state, 1000) == spec_disk_rec(rng.state, (1000 - i) as nat),
        decreases 1000 - i,
    {
        let ghost si: u64 = rng.state;
        proof {
            lemma_disk_unfold(si, (1000 - i) as nat);
        }
        let x = random_scalar_mm(rng, -1_000_000, 1_000_000);
        let y = random_scalar_mm(rng, -1_000_000, 1_000_000);
        let p = Vec3 { x, y, z: 0 };
        proof {
            lemma_dot_fits(p, p, 1_000_000, 1_000_000);
        }
        let ls = p.length_squared();
        if ls < 1_000_000 {
            return p;
        }
        i = i + 1;
    }
    proof {
        lemma_disk_base(rng.state);
        let fb = Vec3 { x: 0i64, y: 0i64, z: 0i64 };
        assert(fb.x * fb.x + fb.y * fb.y + fb.z * fb.z == 0int) by (nonlinear_arith)
            requires
                fb.x == 0i64 && fb.y == 0i64 && fb.z == 0i64,
        ;
        lemma_tdiv_nonneg(0, SCALE as int);
        vstd::arithmetic::div_mod::lemma_div_of0(SCALE as int);
        assert(spec_length_squared(fb) == 0);
    }
    Vec3 { x: 0, y: 0, z: 0 }
}

} // verus!
