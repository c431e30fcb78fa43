//! Geometric primitives and nearest-hit queries.
//!
//! A scene is a slice of [`Object`]s searched linearly; the search shrinks
//! its upper parameter bound to the best hit found so far. Each `hit`
//! contract pins the result down as an exact function of the primitive,
//! the ray and the parameter range.
//!
//! Intersections whose hit point leaves the world box, or whose outward
//! normal degenerates under rounding, are rejected like hits outside the
//! parameter range: the fixed-point grid has a finite domain and the
//! contracts make its boundary explicit.

use crate::fixed::{
    fx_div, fx_mul, iabs, isqrt, lemma_div_bound, lemma_mul_fits, lemma_tdiv_mag,
    lemma_tdiv_nonneg, sqrt_floor, tdiv, SCALE,
};
use crate::materials::{wf_material, Material};
use crate::ray::{spec_at, Ray};
use crate::vec3::{
    in_box, lemma_dot_fits, lemma_not_near_zero, spec_add, spec_cross, spec_dot,
    spec_length, spec_length_squared, spec_near_zero, spec_scale, spec_sub, spec_unit,
    v3, Vec3,
};
use crate::{
    spec_hit_record, wf_hit_opt, wf_ray, HitRecord, Point3, UnitVec3, POS_LIMIT,
    T_HORIZON,
};
use vstd::arithmetic::div_mod::{lemma_div_pos_is_pos, lemma_fundamental_div_mod};
use vstd::prelude::*;

verus! {

#[derive(Clone, Copy, Debug, PartialEq, Eq, Structural)]
pub struct Sphere {
    pub center: Point3,
    pub radius: i64,
    pub material: Material,
}

/// A parallelogram-bounded plane patch: an axis-aligned square of
/// half-extent `radius` in its own plane.
#[derive(Clone, Copy, Debug, PartialEq, Eq, Structural)]
pub struct Square {
    pub center: Point3,
    pub radius: i64,
    pub normal: UnitVec3,
    pub orientation: UnitVec3,
    pub material: Material,
}

/// An axis-oriented box of half-extent `radius`, built from six patches
/// over the orthonormal frame `a`, `b`, `c`.
#[derive(Clone, Copy, Debug, PartialEq, Eq, Structural)]
pub struct Cube {
    pub center: Point3,
    pub radius: i64,
    pub a: Vec3,
    pub b: Vec3,
    pub c: Vec3,
    pub material: Material,
}

#[derive(Clone, Copy, Debug, PartialEq, Eq, Structural)]
pub enum Object {
    Sphere(Sphere),
    Square(Square),
    Cube(Cube),
}

pub open spec fn wf_sphere(s: Sphere) -> bool {
    &&& in_box(s.center, POS_LIMIT as int)
    &&& 1 <= s.radius <= POS_LIMIT
    &&& wf_material(s.material)
}

pub open spec fn wf_square(s: Square) -> bool {
    &&& in_box(s.center, 22_000_000_000)
    &&& 1 <= s.radius <= POS_LIMIT
    &&& in_box(s.normal, 16_000_000)
    &&& in_box(s.orientation, 16_000_000)
    &&& wf_material(s.material)
}

pub open spec fn wf_cube(c: Cube) -> bool {
    &&& in_box(c.center, POS_LIMIT as int)
    &&& 1 <= c.radius <= POS_LIMIT
    &&& in_box(c.a, 2_000_000)
    &&& in_box(c.b, 2_000_000)
    &&& in_box(c.c, 8_000_000)
    &&& wf_material(c.material)
}

pub open spec fn wf_object(o: Object) -> bool {
    match o {
        Object::Sphere(s) => wf_sphere(s),
        Object::Square(s) => wf_square(s),
        Object::Cube(c) => wf_cube(c),
    }
}

pub open spec fn wf_world(s: Seq<Object>) -> bool {
    forall|i: int| 0 <= i < s.len() ==> wf_object(#[trigger] s[i])
}

/// An outward normal usable in a hit record: unit-scale and not
/// degenerate.
pub open spec fn normal_ok(n: Vec3) -> bool {
    &&& in_box(n, 2_000_000)
    &&& !spec_near_zero(n)
}

/// Nearest sphere intersection in `[t_min, t_max]`, from the quadratic in
/// the ray parameter: the smaller root first, then the larger.
pub open spec fn spec_hit_sphere(s: Sphere, r: Ray, t_min: i64, t_max: i64) -> Option<HitRecord> {
    let oc = spec_sub(r.orig, s.center);
    let a = spec_length_squared(r.dir);
    let half_b = spec_dot(oc, r.dir);
    let c = spec_length_squared(oc) - tdiv(s.radius * s.radius, SCALE as int);
    let disc = tdiv(half_b * half_b, SCALE as int) - tdiv(a * c, SCALE as int);
    if disc < 0 {
        None
    } else {
        let sqrtd = sqrt_floor(disc * SCALE);
        let root1 = tdiv((-half_b - sqrtd) * SCALE, a);
        let root = if root1 < t_min || root1 > t_max {
            tdiv((-half_b + sqrtd) * SCALE, a)
        } else {
            root1
        };
        if root < t_min || root > t_max {
            None
        } else {
            let p = spec_at(r, root);
            if !in_box(p, POS_LIMIT as int) {
                None
            } else {
                let outward = v3(
                    tdiv((p.x - s.center.x) * SCALE, s.radius as int),
                    tdiv((p.y - s.center.y) * SCALE, s.radius as int),
                    tdiv((p.z - s.center.z) * SCALE, s.radius as int),
                );
                if !normal_ok(outward) {
                    None
                } else {
                    Some(spec_hit_record(p, r.dir, root as i64, outward, s.material))
                }
            }
        }
    }
}

/// Plane-patch intersection: solve the plane equation, then reject points
/// whose in-plane offset exceeds the half-extent on either axis. A ray
/// exactly parallel to the plane misses.
pub open spec fn spec_hit_square(s: Square, r: Ray, t_min: i64, t_max: i64) -> Option<HitRecord> {
    let oc = spec_sub(r.orig, s.center);
    let d = spec_dot(r.dir, s.normal);
    if d == 0 {
        None
    } else {
        let t = tdiv((-spec_dot(oc, s.normal)) * SCALE, d);
        if t < t_min || t > t_max {
            None
        } else {
            let p = spec_at(r, t);
            if !in_box(p, POS_LIMIT as int) {
                None
            } else {
                let op = spec_sub(p, s.center);
                let d1 = spec_dot(op, s.orientation);
                if d1 > s.radius || d1 < -s.radius {
                    None
                } else {
                    let d2 = spec_dot(op, spec_cross(s.orientation, s.normal));
                    if d2 > s.radius || d2 < -s.radius {
                        None
                    } else if !normal_ok(s.normal) {
                        None
                    } else {
                        Some(spec_hit_record(p, r.dir, t as i64, s.normal, s.material))
                    }
                }
            }
        }
    }
}

/// The six face patches of a box, one per signed frame axis.
pub open spec fn spec_cube_faces(c: Cube) -> Seq<Square> {
    seq![
        Square {
            center: spec_add(c.center, spec_scale(c.a, c.radius as int)),
            radius: c.radius,
            normal: c.a,
            orientation: c.b,
            material: c.material,
        },
        Square {
            center: spec_sub(c.center, spec_scale(c.a, c.radius as int)),
            radius: c.radius,
            normal: c.a,
            orientation: c.b,
            material: c.material,
        },
        Square {
            center: spec_add(c.center, spec_scale(c.b, c.radius as int)),
            radius: c.radius,
            normal: c.b,
            orientation: c.c,
            material: c.material,
        },
        Square {
            center: spec_sub(c.center, spec_scale(c.b, c.radius as int)),
            radius: c.radius,
            normal: c.b,
            orientation: c.c,
            material: c.material,
        },
        Square {
            center: spec_add(c.center, spec_scale(c.c, c.radius as int)),
            radius: c.radius,
            normal: c.c,
            orientation: c.a,
            material: c.material,
        },
        Square {
            center: spec_sub(c.center, spec_scale(c.c, c.radius as int)),
            radius: c.radius,
            normal: c.c,
            orientation: c.a,
            material: c.material,
        },
    ]
}

/// Linear scan over patches, shrinking the upper bound to the nearest hit
/// found so far.
#[verifier::opaque]
pub open spec fn spec_scan_squares(
    sqs: Seq<Square>,
    r: Ray,
    t_min: i64,
    i: int,
    cur_t: i64,
    best: Option<HitRecord>,
) -> Option<HitRecord>
    decreases sqs.len() - i,
{
    if i < 0 || i >= sqs.len() {
        best
    } else {
        match spec_hit_square(sqs[i], r, t_min, cur_t) {
            Some(h) => if h.t < cur_t {
                spec_scan_squares(sqs, r, t_min, i + 1, h.t, Some(h))
            } else {
                spec_scan_squares(sqs, r, t_min, i + 1, cur_t, best)
            },
            None => spec_scan_squares(sqs, r, t_min, i + 1, cur_t, best),
        }
    }
}

/// Box intersection: a conservative bounding-sphere rejection, then the
/// nearest hit among the six face patches.
pub open spec fn spec_hit_cube(c: Cube, r: Ray, t_min: i64, t_max: i64) -> Option<HitRecord> {
    let far = tdiv(spec_length(r.dir) * t_max, SCALE as int) + 2 * c.radius;
    if spec_length(spec_sub(r.orig, c.center)) > far {
        None
    } else {
        spec_scan_squares(spec_cube_faces(c), r, t_min, 0, t_max, None)
    }
}

pub open spec fn spec_hit_object(o: Object, r: Ray, t_min: i64, t_max: i64) -> Option<HitRecord> {
    match o {
        Object::Sphere(s) => spec_hit_sphere(s, r, t_min, t_max),
        Object::Square(s) => spec_hit_square(s, r, t_min, t_max),
        Object::Cube(c) => spec_hit_cube(c, r, t_min, t_max),
    }
}

/// Linear scan over scene objects, shrinking the upper bound to the
/// nearest hit found so far.
#[verifier::opaque]
pub open spec fn spec_scan_objects(
    obs: Seq<Object>,
    r: Ray,
    t_min: i64,
    i: int,
    cur_t: i64,
    best: Option<HitRecord>,
) -> Option<HitRecord>
    decreases obs.len() - i,
{
    if i < 0 || i >= obs.len() {
        best
    } else {
        match spec_hit_object(obs[i], r, t_min, cur_t) {
            Some(h) => if h.t < cur_t {
                spec_scan_objects(obs, r, t_min, i + 1, h.t, Some(h))
            } else {
                spec_scan_objects(obs, r, t_min, i + 1, cur_t, best)
            },
            None => spec_scan_objects(obs, r, t_min, i + 1, cur_t, best),
        }
    }
}

/// The nearest hit in the whole scene.
pub open spec fn spec_hit_world(obs: Seq<Object>, r: Ray, t_min: i64, t_max: i64) -> Option<
    HitRecord,
> {
    spec_scan_objects(obs, r, t_min, 0, t_max, None)
}

proof fn lemma_scan_squares_step(
    sqs: Seq<Square>,
    r: Ray,
    t_min: i64,
    i: int,
    cur_t: i64,
    best: Option<HitRecord>,
)
    requires
        0 <= i < sqs.len(),
    ensures
        spec_scan_squares(sqs, r, t_min, i, cur_t, best) == match spec_hit_square(
            sqs[i],
            r,
            t_min,
            cur_t,
        ) {
            Some(h) => if h.t < cur_t {
                spec_scan_squares(sqs, r, t_min, i + 1, h.t, Some(h))
            } else {
                spec_scan_squares(sqs, r, t_min, i + 1, cur_t, best)
            },
            None => spec_scan_squares(sqs, r, t_min, i + 1, cur_t, best),
        },
{
    reveal_with_fuel(spec_scan_squares, 1);
}

proof fn lemma_scan_squares_end(
    sqs: Seq<Square>,
    r: Ray,
    t_min: i64,
    i: int,
    cur_t: i64,
    best: Option<HitRecord>,
)
    requires
        i >= sqs.len(),
    ensures
        spec_scan_squares(sqs, r, t_min, i, cur_t, best) == best,
{
    reveal_with_fuel(spec_scan_squares, 1);
}

proof fn lemma_scan_objects_step(
    obs: Seq<Object>,
    r: Ray,
    t_min: i64,
    i: int,
    cur_t: i64,
    best: Option<HitRecord>,
)
    requires
        0 <= i < obs.len(),
    ensures
        spec_scan_objects(obs, r, t_min, i, cur_t, best) == match spec_hit_object(
            obs[i],
            r,
            t_min,
            cur_t,
        ) {
            Some(h) => if h.t < cur_t {
                spec_scan_objects(obs, r, t_min, i + 1, h.t, Some(h))
            } else {
                spec_scan_objects(obs, r, t_min, i + 1, cur_t, best)
            },
            None => spec_scan_objects(obs, r, t_min, i + 1, cur_t, best),
        },
{
    reveal_with_fuel(spec_scan_objects, 1);
}

proof fn lemma_scan_objects_end(
    obs: Seq<Object>,
    r: Ray,
    t_min: i64,
    i: int,
    cur_t: i64,
    best: Option<HitRecord>,
)
    requires
        i >= obs.len(),
    ensures
        spec_scan_objects(obs, r, t_min, i, cur_t, best) == best,
{
    reveal_with_fuel(spec_scan_objects, 1);
}

/// One component's contribution to the outward-normal dot product: it is
/// never negative, and a component of at least a thousandth of a unit
/// contributes at least the radius.
proof fn lemma_outward_term(x: int, radius: int)
    requires
        1 <= radius,
    ensures
        tdiv(x * (SCALE as int), radius) * x >= 0,
        iabs(tdiv(x * (SCALE as int), radius)) >= 1000 ==> tdiv(x * (SCALE as int), radius) * x
            >= radius,
{
    let n = tdiv(x * (SCALE as int), radius);
    lemma_tdiv_mag(x * (SCALE as int), radius);
    assert(iabs(x * (SCALE as int)) == iabs(x) * (SCALE as int));
    let m = iabs(n);
    let ax = iabs(x);
    lemma_div_pos_is_pos(ax * (SCALE as int), radius);
    assert(n * x == m * ax) by (nonlinear_arith)
        requires
            (x >= 0 && n >= 0 && m == n && ax == x) || (x < 0 && n <= 0 && m == -n && ax == -x),
    ;
    assert(m * ax >= 0) by (nonlinear_arith)
        requires
            0 <= m,
            0 <= ax,
    ;
    if m >= 1000 {
        lemma_fundamental_div_mod(ax * (SCALE as int), radius);
        assert(m * radius <= ax * (SCALE as int)) by (nonlinear_arith)
            requires
                m == (ax * 1_000_000) / radius,
                ax * 1_000_000 == radius * ((ax * 1_000_000) / radius) + (ax * 1_000_000) % radius,
                (ax * 1_000_000) % radius >= 0,
        ;
        assert(m * ax * 1_000_000 >= 1_000_000 * radius) by (nonlinear_arith)
            requires
                m * radius <= ax * 1_000_000,
                m >= 1000,
                radius >= 1,
                ax >= 0,
        ;
    }
}

/// The raw outward normal of a sphere intersection points away from the
/// center: its dot product with the vector from the center to the hit
/// point is never negative, and is strictly positive for spheres of at
/// least unit radius whenever the normal itself is not degenerate.
pub proof fn lemma_sphere_outward_normal(p: Vec3, c: Vec3, radius: i64)
    requires
        1 <= radius,
        in_box(p, POS_LIMIT as int),
        in_box(c, POS_LIMIT as int),
    ensures
        ({
            let n = v3(
                tdiv((p.x - c.x) * SCALE, radius as int),
                tdiv((p.y - c.y) * SCALE, radius as int),
                tdiv((p.z - c.z) * SCALE, radius as int),
            );
            &&& spec_dot(n, spec_sub(p, c)) >= 0
            &&& (radius >= SCALE && !spec_near_zero(n)) ==> spec_dot(n, spec_sub(p, c)) >= 1
        }),
{
    let x = p.x - c.x;
    let y = p.y - c.y;
    let z = p.z - c.z;
    lemma_outward_term(x, radius as int);
    lemma_outward_term(y, radius as int);
    lemma_outward_term(z, radius as int);
    let nx = tdiv(x * (SCALE as int), radius as int);
    let ny = tdiv(y * (SCALE as int), radius as int);
    let nz = tdiv(z * (SCALE as int), radius as int);
    lemma_tdiv_mag(x * (SCALE as int), radius as int);
    lemma_tdiv_mag(y * (SCALE as int), radius as int);
    lemma_tdiv_mag(z * (SCALE as int), radius as int);
    vstd::arithmetic::div_mod::lemma_div_nonincreasing(iabs(x) * (SCALE as int), radius as int);
    vstd::arithmetic::div_mod::lemma_div_nonincreasing(iabs(y) * (SCALE as int), radius as int);
    vstd::arithmetic::div_mod::lemma_div_nonincreasing(iabs(z) * (SCALE as int), radius as int);
    assert(iabs(x * (SCALE as int)) == iabs(x) * (SCALE as int));
    assert(iabs(y * (SCALE as int)) == iabs(y) * (SCALE as int));
    assert(iabs(z * (SCALE as int)) == iabs(z) * (SCALE as int));
    let n = v3(nx, ny, nz);
    assert(n.x == nx && n.y == ny && n.z == nz);
    let sum = n.x * (spec_sub(p, c).x) + n.y * (spec_sub(p, c).y) + n.z * (spec_sub(p, c).z);
    assert(sum == nx * x + ny * y + nz * z);
    lemma_tdiv_nonneg(sum, SCALE as int);
    if radius >= SCALE && !spec_near_zero(n) {
        assert(iabs(nx) >= 1000 || iabs(ny) >= 1000 || iabs(nz) >= 1000);
        assert(sum >= radius);
        vstd::arithmetic::div_mod::lemma_div_is_ordered(1_000_000, sum, 1_000_000);
        vstd::arithmetic::div_mod::lemma_fundamental_div_mod_converse(1_000_000, 1_000_000, 1, 0);
    }
}

impl Sphere {
    pub fn new(center: Point3, radius: i64, material: Material) -> (s: Self)
        requires
            in_box(center, POS_LIMIT as int),
            1 <= radius <= POS_LIMIT,
            wf_material(material),
        ensures
            s == (Sphere { center, radius, material }),
            wf_sphere(s),
    {
        Sphere { center, radius, material }
    }

    pub fn hit(&self, r: Ray, t_min: i64, t_max: i64) -> (res: Option<HitRecord>)
        requires
            wf_sphere(*self),
            wf_ray(r),
            0 <= t_min,
            0 <= t_max <= T_HORIZON,
        ensures
            res == spec_hit_sphere(*self, r, t_min, t_max),
            wf_hit_opt(res),
            res matches Some(h) ==> t_min <= h.t <= t_max,
    {
        proof {
            lemma_not_near_zero(r.dir);
            lemma_dot_fits(r.dir, r.dir, 200_000_000, 200_000_000);
        }
        let oc = r.orig.sub(self.center);
        proof {
            lemma_dot_fits(oc, r.dir, 4_000_000_000, 200_000_000);
            lemma_dot_fits(oc, oc, 4_000_000_000, 4_000_000_000);
            lemma_tdiv_mag(r.dir.x * r.dir.x + r.dir.y * r.dir.y + r.dir.z * r.dir.z, SCALE as int);
            lemma_div_bound(
                iabs(r.dir.x * r.dir.x + r.dir.y * r.dir.y + r.dir.z * r.dir.z),
                120_000_000_000,
                SCALE as int,
            );
            lemma_tdiv_mag(oc.x * r.dir.x + oc.y * r.dir.y + oc.z * r.dir.z, SCALE as int);
            lemma_div_bound(
                iabs(oc.x * r.dir.x + oc.y * r.dir.y + oc.z * r.dir.z),
                2_400_000_000_000,
                SCALE as int,
            );
            lemma_tdiv_mag(oc.x * oc.x + oc.y * oc.y + oc.z * oc.z, SCALE as int);
            lemma_div_bound(
                iabs(oc.x * oc.x + oc.y * oc.y + oc.z * oc.z),
                48_000_000_000_000,
                SCALE as int,
            );
            lemma_mul_fits(self.radius as int, self.radius as int, 2_000_000_000, 2_000_000_000);
            lemma_tdiv_mag(self.radius * self.radius, SCALE as int);
            lemma_div_bound(iabs(self.radius * self.radius), 4_000_000_000_000, SCALE as int);
        }
        let a = r.dir.length_squared();
        let half_b = oc.dot(r.dir);
        let c = oc.length_squared() - fx_mul(self.radius, self.radius);
        proof {
            lemma_mul_fits(half_b as int, half_b as int, 2_400_000_000_000, 2_400_000_000_000);
            lemma_mul_fits(a as int, c as int, 120_000_000_000, 52_000_000_000_000);
            lemma_tdiv_mag(half_b * half_b, SCALE as int);
            lemma_div_bound(iabs(half_b * half_b), 5_760_000_000_000_000_000, SCALE as int);
            lemma_tdiv_mag(a * c, SCALE as int);
            lemma_div_bound(iabs(a * c), 6_240_000_000_000_000_000, SCALE as int);
        }
        let hb2 = fx_mul(half_b, half_b);
        let ac = fx_mul(a, c);
        let disc: i128 = (hb2 as i128) - (ac as i128);
        if disc < 0 {
            return None;
        }
        let sqrtd_u = isqrt((disc as u128) * 1_000_000);
        let sqrtd = sqrtd_u as i64;
        let num1 = -half_b - sqrtd;
        let mut root = fx_div(num1, a);
        if root < t_min || root > t_max {
            let num2 = -half_b + sqrtd;
            root = fx_div(num2, a);
            if root < t_min || root > t_max {
                return None;
            }
        }
        proof {
            lemma_mul_fits(r.dir.x as int, root as int, 200_000_000, 100_000_000_000);
            lemma_mul_fits(r.dir.y as int, root as int, 200_000_000, 100_000_000_000);
            lemma_mul_fits(r.dir.z as int, root as int, 200_000_000, 100_000_000_000);
        }
        let p = r.at(root);
        if !p.within(POS_LIMIT) {
            return None;
        }
        let outward = Vec3 {
            x: fx_div(p.x - self.center.x, self.radius),
            y: fx_div(p.y - self.center.y, self.radius),
            z: fx_div(p.z - self.center.z, self.radius),
        };
        if !outward.within(2_000_000) || outward.near_zero() {
            return None;
        }
        Some(HitRecord::new(p, r.dir, root, outward, self.material))
    }
}

impl Square {
    pub fn hit(&self, r: Ray, t_min: i64, t_max: i64) -> (res: Option<HitRecord>)
        requires
            wf_square(*self),
            wf_ray(r),
            0 <= t_min,
            0 <= t_max <= T_HORIZON,
        ensures
            res == spec_hit_square(*self, r, t_min, t_max),
            wf_hit_opt(res),
            res matches Some(h) ==> t_min <= h.t <= t_max,
    {
        let oc = r.orig.sub(self.center);
        proof {
            lemma_dot_fits(r.dir, self.normal, 200_000_000, 16_000_000);
            lemma_dot_fits(oc, self.normal, 24_000_000_000, 16_000_000);
            lemma_tdiv_mag(
                oc.x * self.normal.x + oc.y * self.normal.y + oc.z * self.normal.z,
                SCALE as int,
            );
            lemma_div_bound(
                iabs(oc.x * self.normal.x + oc.y * self.normal.y + oc.z * self.normal.z),
                1_152_000_000_000,
                SCALE as int,
            );
        }
        let d = r.dir.dot(self.normal);
        if d == 0 {
            return None;
        }
        let a = -oc.dot(self.normal);
        let t = fx_div(a, d);
        if t < t_min || t > t_max {
            return None;
        }
        proof {
            lemma_mul_fits(r.dir.x as int, t as int, 200_000_000, 100_000_000_000);
            lemma_mul_fits(r.dir.y as int, t as int, 200_000_000, 100_000_000_000);
            lemma_mul_fits(r.dir.z as int, t as int, 200_000_000, 100_000_000_000);
        }
        let p = r.at(t);
        if !p.within(POS_LIMIT) {
            return None;
        }
        let op = p.sub(self.center);
        proof {
            lemma_dot_fits(op, self.orientation, 24_000_000_000, 16_000_000);
            lemma_mul_fits(self.orientation.x as int, self.normal.y as int, 16_000_000, 16_000_000);
            lemma_mul_fits(self.orientation.x as int, self.normal.z as int, 16_000_000, 16_000_000);
            lemma_mul_fits(self.orientation.y as int, self.normal.x as int, 16_000_000, 16_000_000);
            lemma_mul_fits(self.orientation.y as int, self.normal.z as int, 16_000_000, 16_000_000);
            lemma_mul_fits(self.orientation.z as int, self.normal.x as int, 16_000_000, 16_000_000);
            lemma_mul_fits(self.orientation.z as int, self.normal.y as int, 16_000_000, 16_000_000);
        }
        let d1 = op.dot(self.orientation);
        if d1 > self.radius || d1 < -self.radius {
            return None;
        }
        let cr = self.orientation.cross(self.normal);
        proof {
            lemma_tdiv_mag(
                self.orientation.y * self.normal.z - self.orientation.z * self.normal.y,
                SCALE as int,
            );
            lemma_tdiv_mag(
                self.orientation.z * self.normal.x - self.orientation.x * self.normal.z,
                SCALE as int,
            );
            lemma_tdiv_mag(
                self.orientation.x * self.normal.y - self.orientation.y * self.normal.x,
                SCALE as int,
            );
            lemma_div_bound(
                iabs(self.orientation.y * self.normal.z - self.orientation.z * self.normal.y),
                512_000_000,
                SCALE as int,
            );
            lemma_div_bound(
                iabs(self.orientation.z * self.normal.x - self.orientation.x * self.normal.z),
                512_000_000,
                SCALE as int,
            );
            lemma_div_bound(
                iabs(self.orientation.x * self.normal.y - self.orientation.y * self.normal.x),
                512_000_000,
                SCALE as int,
            );
            lemma_dot_fits(op, cr, 24_000_000_000, 512_000_000);
        }
        let d2 = op.dot(cr);
        if d2 > self.radius || d2 < -self.radius {
            return None;
        }
        if !self.normal.within(2_000_000) || self.normal.near_zero() {
            return None;
        }
        Some(HitRecord::new(p, r.dir, t, self.normal, self.material))
    }
}

/// Gram–Schmidt construction of a box frame from two caller-supplied
/// axes: fails (returns nothing) when the axes are parallel or too short
/// for the fixed-point grid to orient.
pub open spec fn spec_new_cube(
    center: Point3,
    radius: i64,
    axis0: Vec3,
    axis1: Vec3,
    material: Material,
) -> Option<Cube> {
    let cross0 = spec_cross(axis0, axis1);
    if spec_length_squared(cross0) == 0 {
        None
    } else if spec_length_squared(axis0) < 1 {
        None
    } else {
        let a = spec_unit(axis0);
        let proj = spec_dot(axis1, a);
        let b0 = spec_sub(axis1, spec_scale(a, proj));
        if spec_length_squared(b0) < 1 {
            None
        } else {
            let b = spec_unit(b0);
            Some(Cube { center, radius, a, b, c: spec_cross(a, b), material })
        }
    }
}

impl Cube {
    pub fn new(center: Point3, radius: i64, axis0: Vec3, axis1: Vec3, material: Material) -> (res:
        Option<Cube>)
        requires
            in_box(center, POS_LIMIT as int),
            1 <= radius <= POS_LIMIT,
            wf_material(material),
            in_box(axis0, 100_000_000),
            in_box(axis1, 100_000_000),
        ensures
            res == spec_new_cube(center, radius, axis0, axis1, material),
            res matches Some(c) ==> wf_cube(c),
    {
        proof {
            lemma_mul_fits(axis0.x as int, axis1.y as int, 100_000_000, 100_000_000);
            lemma_mul_fits(axis0.x as int, axis1.z as int, 100_000_000, 100_000_000);
            lemma_mul_fits(axis0.y as int, axis1.x as int, 100_000_000, 100_000_000);
            lemma_mul_fits(axis0.y as int, axis1.z as int, 100_000_000, 100_000_000);
            lemma_mul_fits(axis0.z as int, axis1.x as int, 100_000_000, 100_000_000);
            lemma_mul_fits(axis0.z as int, axis1.y as int, 100_000_000, 100_000_000);
            lemma_tdiv_mag(axis0.y * axis1.z - axis0.z * axis1.y, SCALE as int);
            lemma_tdiv_mag(axis0.z * axis1.x - axis0.x * axis1.z, SCALE as int);
            lemma_tdiv_mag(axis0.x * axis1.y - axis0.y * axis1.x, SCALE as int);
            lemma_div_bound(iabs(axis0.y * axis1.z - axis0.z * axis1.y), 20_000_000_000, SCALE as int);
            lemma_div_bound(iabs(axis0.z * axis1.x - axis0.x * axis1.z), 20_000_000_000, SCALE as int);
            lemma_div_bound(iabs(axis0.x * axis1.y - axis0.y * axis1.x), 20_000_000_000, SCALE as int);
        }
        let cross0 = axis0.cross(axis1);
        proof {
            lemma_dot_fits(cross0, cross0, 20_000_000_000, 20_000_000_000);
            lemma_dot_fits(axis0, axis0, 100_000_000, 100_000_000);
        }
        let ls_cross = cross0.length_squared();
        if ls_cross == 0 {
            return None;
        }
        let ls0 = axis0.length_squared();
        if ls0 < 1 {
            return None;
        }
        let a = axis0.unit_vector();
        proof {
            lemma_dot_fits(axis1, a, 100_000_000, 2_000_000);
            lemma_tdiv_mag(
                axis1.x * a.x + axis1.y * a.y + axis1.z * a.z,
                SCALE as int,
            );
            lemma_div_bound(
                iabs(axis1.x * a.x + axis1.y * a.y + axis1.z * a.z),
                600_000_000,
                SCALE as int,
            );
        }
        let proj = axis1.dot(a);
        proof {
            lemma_mul_fits(a.x as int, proj as int, 2_000_000, 600_000_000);
            lemma_mul_fits(a.y as int, proj as int, 2_000_000, 600_000_000);
            lemma_mul_fits(a.z as int, proj as int, 2_000_000, 600_000_000);
            lemma_tdiv_mag(a.x as int * proj, SCALE as int);
            lemma_tdiv_mag(a.y as int * proj, SCALE as int);
            lemma_tdiv_mag(a.z as int * proj, SCALE as int);
            lemma_div_bound(iabs(a.x as int * proj), 1_200_000_000, SCALE as int);
            lemma_div_bound(iabs(a.y as int * proj), 1_200_000_000, SCALE as int);
            lemma_div_bound(iabs(a.z as int * proj), 1_200_000_000, SCALE as int);
        }
        let b0 = axis1.sub(a.scale(proj));
        proof {
            lemma_dot_fits(b0, b0, 1_300_000_000, 1_300_000_000);
        }
        let lsb = b0.length_squared();
        if lsb < 1 {
            return None;
        }
        let b = b0.unit_vector();
        proof {
            lemma_mul_fits(a.x as int, b.y as int, 2_000_000, 2_000_000);
            lemma_mul_fits(a.x as int, b.z as int, 2_000_000, 2_000_000);
            lemma_mul_fits(a.y as int, b.x as int, 2_000_000, 2_000_000);
            lemma_mul_fits(a.y as int, b.z as int, 2_000_000, 2_000_000);
            lemma_mul_fits(a.z as int, b.x as int, 2_000_000, 2_000_000);
            lemma_mul_fits(a.z as int, b.y as int, 2_000_000, 2_000_000);
            lemma_tdiv_mag(a.y * b.z - a.z * b.y, SCALE as int);
            lemma_tdiv_mag(a.z * b.x - a.x * b.z, SCALE as int);
            lemma_tdiv_mag(a.x * b.y - a.y * b.x, SCALE as int);
            lemma_div_bound(iabs(a.y * b.z - a.z * b.y), 8_000_000, SCALE as int);
            lemma_div_bound(iabs(a.z * b.x - a.x * b.z), 8_000_000, SCALE as int);
            lemma_div_bound(iabs(a.x * b.y - a.y * b.x), 8_000_000, SCALE as int);
        }
        let c = a.cross(b);
        Some(Cube { center: center, radius: radius, a, b, c, material: material })
    }

    #[verifier::rlimit(100)]
    pub fn hit(&self, r: Ray, t_min: i64, t_max: i64) -> (res: Option<HitRecord>)
        requires
            wf_cube(*self),
            wf_ray(r),
            0 <= t_min,
            0 <= t_max <= T_HORIZON,
        ensures
            res == spec_hit_cube(*self, r, t_min, t_max),
            wf_hit_opt(res),
            res matches Some(h) ==> t_min <= h.t <= t_max,
    {
        let oc = r.orig.sub(self.center);
        proof {
            lemma_dot_fits(oc, oc, 4_000_000_000, 4_000_000_000);
            lemma_dot_fits(r.dir, r.dir, 200_000_000, 200_000_000);
        }
        let oclen = oc.length();
        let dlen = r.dir.length();
        proof {
            lemma_mul_fits(dlen as int, t_max as int, 3_040_000_000_000, 100_000_000_000);
        }
        let far = fx_mul(dlen, t_max) + 2 * self.radius;
        if oclen > far {
            return None;
        }
        proof {
            lemma_mul_fits(self.a.x as int, self.radius as int, 2_000_000, 2_000_000_000);
            lemma_mul_fits(self.a.y as int, self.radius as int, 2_000_000, 2_000_000_000);
            lemma_mul_fits(self.a.z as int, self.radius as int, 2_000_000, 2_000_000_000);
            lemma_mul_fits(self.b.x as int, self.radius as int, 2_000_000, 2_000_000_000);
            lemma_mul_fits(self.b.y as int, self.radius as int, 2_000_000, 2_000_000_000);
            lemma_mul_fits(self.b.z as int, self.radius as int, 2_000_000, 2_000_000_000);
            lemma_mul_fits(self.c.x as int, self.radius as int, 8_000_000, 2_000_000_000);
            lemma_mul_fits(self.c.y as int, self.radius as int, 8_000_000, 2_000_000_000);
            lemma_mul_fits(self.c.z as int, self.radius as int, 8_000_000, 2_000_000_000);
            lemma_tdiv_mag(self.a.x as int * self.radius, SCALE as int);
            lemma_tdiv_mag(self.a.y as int * self.radius, SCALE as int);
            lemma_tdiv_mag(self.a.z as int * self.radius, SCALE as int);
            lemma_tdiv_mag(self.b.x as int * self.radius, SCALE as int);
            lemma_tdiv_mag(self.b.y as int * self.radius, SCALE as int);
            lemma_tdiv_mag(self.b.z as int * self.radius, SCALE as int);
            lemma_tdiv_mag(self.c.x as int * self.radius, SCALE as int);
            lemma_tdiv_mag(self.c.y as int * self.radius, SCALE as int);
            lemma_tdiv_mag(self.c.z as int * self.radius, SCALE as int);
            lemma_div_bound(iabs(self.a.x as int * self.radius), 4_000_000_000, SCALE as int);
            lemma_div_bound(iabs(self.a.y as int * self.radius), 4_000_000_000, SCALE as int);
            lemma_div_bound(iabs(self.a.z as int * self.radius), 4_000_000_000, SCALE as int);
            lemma_div_bound(iabs(self.b.x as int * self.radius), 4_000_000_000, SCALE as int);
            lemma_div_bound(iabs(self.b.y as int * self.radius), 4_000_000_000, SCALE as int);
            lemma_div_bound(iabs(self.b.z as int * self.radius), 4_000_000_000, SCALE as int);
            lemma_div_bound(iabs(self.c.x as int * self.radius), 16_000_000_000, SCALE as int);
            lemma_div_bound(iabs(self.c.y as int * self.radius), 16_000_000_000, SCALE as int);
            lemma_div_bound(iabs(self.c.z as int * self.radius), 16_000_000_000, SCALE as int);
        }
        let step_a = self.a.scale(self.radius);
        let step_b = self.b.scale(self.radius);
        let step_c = self.c.scale(self.radius);
        let faces: [Square; 6] = [
            Square {
                center: self.center.add(step_a),
                radius: self.radius,
                normal: self.a,
                orientation: self.b,
                material: self.material,
            },
            Square {
                center: self.center.sub(step_a),
                radius: self.radius,
                normal: self.a,
                orientation: self.b,
                material: self.material,
            },
            Square {
                center: self.center.add(step_b),
                radius: self.radius,
                normal: self.b,
                orientation: self.c,
                material: self.material,
            },
            Square {
                center: self.center.sub(step_b),
                radius: self.radius,
                normal: self.b,
                orientation: self.c,
                material: self.material,
            },
            Square {
                center: self.center.add(step_c),
                radius: self.radius,
                normal: self.c,
                orientation: self.a,
                material: self.material,
            },
            Square {
                center: self.center.sub(step_c),
                radius: self.radius,
                normal: self.c,
                orientation: self.a,
                material: self.material,
            },
        ];
        proof {
            let fs = spec_cube_faces(*self);
            assert(fs.len() == 6);
            assert(faces@.len() == 6);
            assert(faces@[0] == fs[0]);
            assert(faces@[1] == fs[1]);
            assert(faces@[2] == fs[2]);
            assert(faces@[3] == fs[3]);
            assert(faces@[4] == fs[4]);
            assert(faces@[5] == fs[5]);
            assert(faces@ =~= fs);
        }
        hit_squares(faces.as_slice(), r, t_min, t_max)
    }
}

/// Nearest hit among a run of patches, shrinking the search bound as the
/// scan goes.
fn hit_squares(sqs: &[Square], r: Ray, t_min: i64, t_max: i64) -> (res: Option<HitRecord>)
    requires
        forall|j: int| 0 <= j < sqs@.len() ==> wf_square(#[trigger] sqs@[j]),
        wf_ray(r),
        0 <= t_min,
        0 <= t_max <= T_HORIZON,
    ensures
        res == spec_scan_squares(sqs@, r, t_min, 0, t_max, None),
        wf_hit_opt(res),
        res matches Some(h) ==> t_min <= h.t <= t_max,
{
    let mut current_t = t_max;
    let mut result: Option<HitRecord> = None;
    let mut i: usize = 0;
    while i < sqs.len()
        invariant
            0 <= i as int <= sqs@.len(),
            0 <= current_t <= t_max,
            spec_scan_squares(sqs@, r, t_min, 0, t_max, None) == spec_scan_squares(
                sqs@,
                r,
                t_min,
                i as int,
                current_t,
                result,
            ),
            wf_hit_opt(result),
            result matches Some(h) ==> t_min <= h.t <= t_max,
            forall|j: int| 0 <= j < sqs@.len() ==> wf_square(#[trigger] sqs@[j]),
            wf_ray(r),
            0 <= t_min,
            0 <= t_max <= T_HORIZON,
        decreases sqs@.len() - i,
    {
        proof {
            lemma_scan_squares_step(sqs@, r, t_min, i as int, current_t, result);
        }
        match sqs[i].hit(r, t_min, current_t) {
            Some(h) => {
                if h.t < current_t {
                    current_t = h.t;
                    result = Some(h);
                }
            },
            None => {},
        }
        i = i + 1;
    }
    proof {
        lemma_scan_squares_end(sqs@, r, t_min, i as int, current_t, result);
    }
    result
}

impl Object {
    /// Nearest intersection of this primitive with the ray, dispatched by
    /// variant.
    pub fn hit(&self, r: Ray, t_min: i64, t_max: i64) -> (res: Option<HitRecord>)
        requires
            wf_object(*self),
            wf_ray(r),
            0 <= t_min,
            0 <= t_max <= T_HORIZON,
        ensures
            res == spec_hit_object(*self, r, t_min, t_max),
            wf_hit_opt(res),
            res matches Some(h) ==> t_min <= h.t <= t_max,
    {
        match self {
            Object::Sphere(s) => s.hit(r, t_min, t_max),
            Object::Square(s) => s.hit(r, t_min, t_max),
            Object::Cube(c) => c.hit(r, t_min, t_max),
        }
    }
}

/// Nearest hit in the whole scene: a linear scan that shrinks its search
/// bound to the best hit so far.
pub fn hit(objects: &[Object], r: Ray, t_min: i64, t_max: i64) -> (res: Option<HitRecord>)
    requires
        wf_world(objects@),
        wf_ray(r),
        0 <= t_min,
        0 <= t_max <= T_HORIZON,
    ensures
        res == spec_hit_world(objects@, r, t_min, t_max),
        wf_hit_opt(res),
        res matches Some(h) ==> t_min <= h.t <= t_max,
{
    let mut current_t = t_max;
    let mut result: Option<HitRecord> = None;
    let mut i: usize = 0;
    while i < objects.len()
        invariant
            0 <= i as int <= objects@.len(),
            0 <= current_t <= t_max,
            spec_hit_world(objects@, r, t_min, t_max) == spec_scan_objects(
                objects@,
                r,
                t_min,
                i as int,
                current_t,
                result,
            ),
            wf_hit_opt(result),
            result matches Some(h) ==> t_min <= h.t <= t_max,
            wf_world(objects@),
            wf_ray(r),
            0 <= t_min,
            0 <= t_max <= T_HORIZON,
        decreases objects@.len() - i,
    {
        proof {
            lemma_scan_objects_step(objects@, r, t_min, i as int, current_t, result);
        }
        match objects[i].hit(r, t_min, current_t) {
            Some(h) => {
                if h.t < current_t {
                    current_t = h.t;
                    result = Some(h);
                }
            },
            None => {},
        }
        i = i + 1;
    }
    proof {
        lemma_scan_objects_end(objects@, r, t_min, i as int, current_t, result);
    }
    result
}

} // verus!
