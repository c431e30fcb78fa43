//! The camera: maps normalized image coordinates to world-space rays,
//! with a thin-lens aperture for depth of field.
//!
//! Construction derives an orthonormal basis and a viewport rectangle
//! from the eye, the look-at point, the up vector, the slope of half the
//! vertical field of view (the tangent of half the angle, which the
//! caller supplies directly since the fixed-point grid carries no
//! trigonometry), the aspect ratio, the aperture and the focus distance.
//! It fails — returns nothing — when the geometry degenerates or the
//! derived viewport leaves the numeric domain the ray contracts need.

use crate::fixed::{
    fx_mul, iabs, lemma_div_bound, lemma_mul_fits, lemma_tdiv_mag, tdiv, SCALE,
};
use crate::ray::Ray;
use crate::rng::Rng64;
use crate::vec3::{
    in_box, lemma_dot_fits, spec_add, spec_cross, spec_length_squared, spec_near_zero, spec_scale, spec_sub, spec_unit, v3, Vec3,
};
use crate::{
    random_vec3_in_unit_disk, spec_disk_rec, wf_ray, Point3, POS_LIMIT,
};
use vstd::prelude::*;

verus! {

#[derive(Clone, Copy, Debug, PartialEq, Eq, Structural)]
pub struct Camera {
    pub origin: Point3,
    pub lower_left_corner: Point3,
    pub horizontal: Vec3,
    pub vertical: Vec3,
    pub u: Vec3,
    pub v: Vec3,
    pub lens_radius: i64,
}

/// A camera whose derived frame keeps every generated ray inside the
/// renderer's numeric domain.
pub open spec fn wf_camera(c: Camera) -> bool {
    &&& in_box(c.origin, 1_900_000_000)
    &&& in_box(spec_sub(c.lower_left_corner, c.origin), 60_000_000)
    &&& in_box(c.lower_left_corner, 2_000_000_000)
    &&& in_box(c.horizontal, 30_000_000)
    &&& in_box(c.vertical, 30_000_000)
    &&& in_box(c.u, 2_000_000)
    &&& in_box(c.v, 8_000_000)
    &&& 0 <= c.lens_radius <= 2_000_000
}

/// The camera derived from eye, look-at, up, viewport slope, aspect
/// ratio, aperture and focus distance — or nothing when the inputs
/// degenerate or the viewport leaves the numeric domain.
pub open spec fn spec_new_camera(
    look_from: Point3,
    look_at: Point3,
    vup: Vec3,
    tan_half_fov: i64,
    aspect_ratio: i64,
    aperture: i64,
    focus_dist: i64,
) -> Option<Camera> {
    let gaze = spec_sub(look_from, look_at);
    if spec_length_squared(gaze) < 1 {
        None
    } else {
        let w = spec_unit(gaze);
        let cross0 = spec_cross(vup, w);
        if spec_length_squared(cross0) < 1 {
            None
        } else {
            let u = spec_unit(cross0);
            let v = spec_cross(w, u);
            let half_height = tdiv(tan_half_fov * focus_dist, SCALE as int);
            let half_width = tdiv(half_height * aspect_ratio, SCALE as int);
            let horizontal = spec_scale(u, 2 * half_width);
            let vertical = spec_scale(v, 2 * half_height);
            let lower_left_corner = spec_sub(
                spec_sub(
                    spec_sub(look_from, spec_scale(horizontal, 500_000)),
                    spec_scale(vertical, 500_000),
                ),
                spec_scale(w, focus_dist as int),
            );
            let lens_radius = tdiv(aperture * 500_000, SCALE as int);
            let cam = Camera {
                origin: look_from,
                lower_left_corner,
                horizontal,
                vertical,
                u,
                v,
                lens_radius: lens_radius as i64,
            };
            if wf_camera(cam) {
                Some(cam)
            } else {
                None
            }
        }
    }
}

/// The ray through normalized image coordinates `(s, t)`, with its origin
/// jittered on the lens disk; a direction that degenerates under rounding
/// falls back to straight ahead along the axis the viewport faces.
pub open spec fn spec_get_ray(c: Camera, st: u64, s: i64, t: i64) -> (Ray, int) {
    let a = spec_disk_rec(st, 1000);
    let rd = spec_scale(a.0, c.lens_radius as int);
    let offset = spec_add(spec_scale(c.u, rd.x as int), spec_scale(c.v, rd.y as int));
    let dir0 = spec_sub(
        spec_sub(
            spec_add(
                spec_add(c.lower_left_corner, spec_scale(c.horizontal, s as int)),
                spec_scale(c.vertical, t as int),
            ),
            c.origin,
        ),
        offset,
    );
    let dir = if spec_near_zero(dir0) {
        v3(0, 0, -(SCALE as int))
    } else {
        dir0
    };
    (Ray { orig: spec_add(c.origin, offset), dir }, a.1)
}

impl Camera {
    #[verifier::rlimit(100)]
    pub fn new(
        look_from: Point3,
        look_at: Point3,
        vup: Vec3,
        tan_half_fov: i64,
        aspect_ratio: i64,
        aperture: i64,
        focus_dist: i64,
    ) -> (res: Option<Camera>)
        requires
            in_box(look_from, POS_LIMIT as int),
            in_box(look_at, POS_LIMIT as int),
            in_box(vup, 100_000_000),
            0 <= tan_half_fov <= 4_000_000,
            0 <= aspect_ratio <= 8_000_000,
            0 <= aperture <= 4_000_000,
            1 <= focus_dist <= 100_000_000,
        ensures
            res == spec_new_camera(
                look_from,
                look_at,
                vup,
                tan_half_fov,
                aspect_ratio,
                aperture,
                focus_dist,
            ),
            res matches Some(c) ==> wf_camera(c),
    {
        let gaze = look_from.sub(look_at);
        proof {
            lemma_dot_fits(gaze, gaze, 4_000_000_000, 4_000_000_000);
        }
        let gls = gaze.length_squared();
        if gls < 1 {
            return None;
        }
        let w = gaze.unit_vector();
        proof {
            lemma_mul_fits(vup.x as int, w.y as int, 100_000_000, 2_000_000);
            lemma_mul_fits(vup.x as int, w.z as int, 100_000_000, 2_000_000);
            lemma_mul_fits(vup.y as int, w.x as int, 100_000_000, 2_000_000);
            lemma_mul_fits(vup.y as int, w.z as int, 100_000_000, 2_000_000);
            lemma_mul_fits(vup.z as int, w.x as int, 100_000_000, 2_000_000);
            lemma_mul_fits(vup.z as int, w.y as int, 100_000_000, 2_000_000);
            lemma_tdiv_mag(vup.y * w.z - vup.z * w.y, SCALE as int);
            lemma_tdiv_mag(vup.z * w.x - vup.x * w.z, SCALE as int);
            lemma_tdiv_mag(vup.x * w.y - vup.y * w.x, SCALE as int);
            lemma_div_bound(iabs(vup.y * w.z - vup.z * w.y), 400_000_000, SCALE as int);
            lemma_div_bound(iabs(vup.z * w.x - vup.x * w.z), 400_000_000, SCALE as int);
            lemma_div_bound(iabs(vup.x * w.y - vup.y * w.x), 400_000_000, SCALE as int);
        }
        let cross0 = vup.cross(w);
        proof {
            lemma_dot_fits(cross0, cross0, 400_000_000, 400_000_000);
        }
        let cls = cross0.length_squared();
        if cls < 1 {
            return None;
        }
        let u = cross0.unit_vector();
        proof {
            lemma_mul_fits(w.x as int, u.y as int, 2_000_000, 2_000_000);
            lemma_mul_fits(w.x as int, u.z as int, 2_000_000, 2_000_000);
            lemma_mul_fits(w.y as int, u.x as int, 2_000_000, 2_000_000);
            lemma_mul_fits(w.y as int, u.z as int, 2_000_000, 2_000_000);
            lemma_mul_fits(w.z as int, u.x as int, 2_000_000, 2_000_000);
            lemma_mul_fits(w.z as int, u.y as int, 2_000_000, 2_000_000);
            lemma_tdiv_mag(w.y * u.z - w.z * u.y, SCALE as int);
            lemma_tdiv_mag(w.z * u.x - w.x * u.z, SCALE as int);
            lemma_tdiv_mag(w.x * u.y - w.y * u.x, SCALE as int);
            lemma_div_bound(iabs(w.y * u.z - w.z * u.y), 8_000_000, SCALE as int);
            lemma_div_bound(iabs(w.z * u.x - w.x * u.z), 8_000_000, SCALE as int);
            lemma_div_bound(iabs(w.x * u.y - w.y * u.x), 8_000_000, SCALE as int);
        }
        let v = w.cross(u);
        proof {
            lemma_mul_fits(tan_half_fov as int, focus_dist as int, 4_000_000, 100_000_000);
            lemma_tdiv_mag(tan_half_fov * focus_dist, SCALE as int);
            lemma_div_bound(iabs(tan_half_fov * focus_dist), 400_000_000, SCALE as int);
        }
        let half_height = fx_mul(tan_half_fov, focus_dist);
        proof {
            lemma_mul_fits(half_height as int, aspect_ratio as int, 400_000_000, 8_000_000);
            lemma_tdiv_mag(half_height * aspect_ratio, SCALE as int);
            lemma_div_bound(iabs(half_height * aspect_ratio), 3_200_000_000, SCALE as int);
        }
        let half_width = fx_mul(half_height, aspect_ratio);
        proof {
            lemma_mul_fits(u.x as int, 2 * half_width as int, 2_000_000, 6_400_000_000);
            lemma_mul_fits(u.y as int, 2 * half_width as int, 2_000_000, 6_400_000_000);
            lemma_mul_fits(u.z as int, 2 * half_width as int, 2_000_000, 6_400_000_000);
            lemma_mul_fits(v.x as int, 2 * half_height as int, 8_000_000, 800_000_000);
            lemma_mul_fits(v.y as int, 2 * half_height as int, 8_000_000, 800_000_000);
            lemma_mul_fits(v.z as int, 2 * half_height as int, 8_000_000, 800_000_000);
            lemma_tdiv_mag(u.x as int * (2 * half_width), SCALE as int);
            lemma_tdiv_mag(u.y as int * (2 * half_width), SCALE as int);
            lemma_tdiv_mag(u.z as int * (2 * half_width), SCALE as int);
            lemma_tdiv_mag(v.x as int * (2 * half_height), SCALE as int);
            lemma_tdiv_mag(v.y as int * (2 * half_height), SCALE as int);
            lemma_tdiv_mag(v.z as int * (2 * half_height), SCALE as int);
            lemma_div_bound(iabs(u.x as int * (2 * half_width)), 12_800_000_000, SCALE as int);
            lemma_div_bound(iabs(u.y as int * (2 * half_width)), 12_800_000_000, SCALE as int);
            lemma_div_bound(iabs(u.z as int * (2 * half_width)), 12_800_000_000, SCALE as int);
            lemma_div_bound(iabs(v.x as int * (2 * half_height)), 6_400_000_000, SCALE as int);
            lemma_div_bound(iabs(v.y as int * (2 * half_height)), 6_400_000_000, SCALE as int);
            lemma_div_bound(iabs(v.z as int * (2 * half_height)), 6_400_000_000, SCALE as int);
        }
        let horizontal = u.scale(2 * half_width);
        let vertical = v.scale(2 * half_height);
        proof {
            lemma_mul_fits(horizontal.x as int, 500_000, 12_800_000_000, 500_000);
            lemma_mul_fits(horizontal.y as int, 500_000, 12_800_000_000, 500_000);
            lemma_mul_fits(horizontal.z as int, 500_000, 12_800_000_000, 500_000);
            lemma_mul_fits(vertical.x as int, 500_000, 6_400_000_000, 500_000);
            lemma_mul_fits(vertical.y as int, 500_000, 6_400_000_000, 500_000);
            lemma_mul_fits(vertical.z as int, 500_000, 6_400_000_000, 500_000);
            lemma_mul_fits(w.x as int, focus_dist as int, 2_000_000, 100_000_000);
            lemma_mul_fits(w.y as int, focus_dist as int, 2_000_000, 100_000_000);
            lemma_mul_fits(w.z as int, focus_dist as int, 2_000_000, 100_000_000);
            lemma_tdiv_mag(horizontal.x as int * 500_000, SCALE as int);
            lemma_tdiv_mag(horizontal.y as int * 500_000, SCALE as int);
            lemma_tdiv_mag(horizontal.z as int * 500_000, SCALE as int);
            lemma_tdiv_mag(vertical.x as int * 500_000, SCALE as int);
            lemma_tdiv_mag(vertical.y as int * 500_000, SCALE as int);
            lemma_tdiv_mag(vertical.z as int * 500_000, SCALE as int);
            lemma_tdiv_mag(w.x as int * focus_dist, SCALE as int);
            lemma_tdiv_mag(w.y as int * focus_dist, SCALE as int);
            lemma_tdiv_mag(w.z as int * focus_dist, SCALE as int);
            lemma_div_bound(iabs(horizontal.x as int * 500_000), 6_400_000_000, SCALE as int);
            lemma_div_bound(iabs(horizontal.y as int * 500_000), 6_400_000_000, SCALE as int);
            lemma_div_bound(iabs(horizontal.z as int * 500_000), 6_400_000_000, SCALE as int);
            lemma_div_bound(iabs(vertical.x as int * 500_000), 3_200_000_000, SCALE as int);
            lemma_div_bound(iabs(vertical.y as int * 500_000), 3_200_000_000, SCALE as int);
            lemma_div_bound(iabs(vertical.z as int * 500_000), 3_200_000_000, SCALE as int);
            lemma_div_bound(iabs(w.x as int * focus_dist), 200_000_000, SCALE as int);
            lemma_div_bound(iabs(w.y as int * focus_dist), 200_000_000, SCALE as int);
            lemma_div_bound(iabs(w.z as int * focus_dist), 200_000_000, SCALE as int);
        }
        let lower_left_corner = look_from.sub(horizontal.scale(500_000)).sub(
            vertical.scale(500_000),
        ).sub(w.scale(focus_dist));
        proof {
            lemma_mul_fits(aperture as int, 500_000, 4_000_000, 500_000);
            lemma_tdiv_mag(aperture as int * 500_000, SCALE as int);
            lemma_div_bound(iabs(aperture as int * 500_000), 2_000_000, SCALE as int);
            vstd::arithmetic::div_mod::lemma_div_pos_is_pos(aperture as int * 500_000, SCALE as int);
        }
        let lens_radius = fx_mul(aperture, 500_000);
        let cam = Camera { origin: look_from, lower_left_corner, horizontal, vertical, u, v, lens_radius };
        let ok = cam.origin.within(1_900_000_000) && cam.lower_left_corner.sub(cam.origin).within(
            60_000_000,
        ) && cam.lower_left_corner.within(2_000_000_000) && cam.horizontal.within(30_000_000)
            && cam.vertical.within(30_000_000) && cam.u.within(2_000_000) && cam.v.within(8_000_000)
            && 0 <= cam.lens_radius && cam.lens_radius <= 2_000_000;
        if ok {
            Some(cam)
        } else {
            None
        }
    }

    /// The camera ray through normalized image coordinates `(s, t)`.
    #[verifier::rlimit(100)]
    pub fn get_ray(&self, rng: &mut Rng64, s: i64, t: i64) -> (r: Ray)
        requires
            wf_camera(*self),
            0 <= s <= SCALE,
            0 <= t <= SCALE,
        ensures
            r == spec_get_ray(*self, old(rng).state, s, t).0,
            final(rng).state == spec_get_ray(*self, old(rng).state, s, t).1,
            wf_ray(r),
    {
        let dp = random_vec3_in_unit_disk(rng);
        proof {
            lemma_mul_fits(dp.x as int, self.lens_radius as int, 1_000_000, 2_000_000);
            lemma_mul_fits(dp.y as int, self.lens_radius as int, 1_000_000, 2_000_000);
            lemma_mul_fits(dp.z as int, self.lens_radius as int, 1_000_000, 2_000_000);
            lemma_tdiv_mag(dp.x as int * self.lens_radius, SCALE as int);
            lemma_tdiv_mag(dp.y as int * self.lens_radius, SCALE as int);
            lemma_tdiv_mag(dp.z as int * self.lens_radius, SCALE as int);
            lemma_div_bound(iabs(dp.x as int * self.lens_radius), 2_000_000, SCALE as int);
            lemma_div_bound(iabs(dp.y as int * self.lens_radius), 2_000_000, SCALE as int);
            lemma_div_bound(iabs(dp.z as int * self.lens_radius), 2_000_000, SCALE as int);
        }
        let rd = dp.scale(self.lens_radius);
        proof {
            lemma_mul_fits(self.u.x as int, rd.x as int, 2_000_000, 2_000_000);
            lemma_mul_fits(self.u.y as int, rd.x as int, 2_000_000, 2_000_000);
            lemma_mul_fits(self.u.z as int, rd.x as int, 2_000_000, 2_000_000);
            lemma_mul_fits(self.v.x as int, rd.y as int, 8_000_000, 2_000_000);
            lemma_mul_fits(self.v.y as int, rd.y as int, 8_000_000, 2_000_000);
            lemma_mul_fits(self.v.z as int, rd.y as int, 8_000_000, 2_000_000);
            lemma_tdiv_mag(self.u.x as int * rd.x, SCALE as int);
            lemma_tdiv_mag(self.u.y as int * rd.x, SCALE as int);
            lemma_tdiv_mag(self.u.z as int * rd.x, SCALE as int);
            lemma_tdiv_mag(self.v.x as int * rd.y, SCALE as int);
            lemma_tdiv_mag(self.v.y as int * rd.y, SCALE as int);
            lemma_tdiv_mag(self.v.z as int * rd.y, SCALE as int);
            lemma_div_bound(iabs(self.u.x as int * rd.x), 4_000_000, SCALE as int);
            lemma_div_bound(iabs(self.u.y as int * rd.x), 4_000_000, SCALE as int);
            lemma_div_bound(iabs(self.u.z as int * rd.x), 4_000_000, SCALE as int);
            lemma_div_bound(iabs(self.v.x as int * rd.y), 16_000_000, SCALE as int);
            lemma_div_bound(iabs(self.v.y as int * rd.y), 16_000_000, SCALE as int);
            lemma_div_bound(iabs(self.v.z as int * rd.y), 16_000_000, SCALE as int);
        }
        let offset = self.u.scale(rd.x).add(self.v.scale(rd.y));
        proof {
            lemma_mul_fits(self.horizontal.x as int, s as int, 30_000_000, 1_000_000);
            lemma_mul_fits(self.horizontal.y as int, s as int, 30_000_000, 1_000_000);
            lemma_mul_fits(self.horizontal.z as int, s as int, 30_000_000, 1_000_000);
            lemma_mul_fits(self.vertical.x as int, t as int, 30_000_000, 1_000_000);
            lemma_mul_fits(self.vertical.y as int, t as int, 30_000_000, 1_000_000);
            lemma_mul_fits(self.vertical.z as int, t as int, 30_000_000, 1_000_000);
            lemma_tdiv_mag(self.horizontal.x as int * s, SCALE as int);
            lemma_tdiv_mag(self.horizontal.y as int * s, SCALE as int);
            lemma_tdiv_mag(self.horizontal.z as int * s, SCALE as int);
            lemma_tdiv_mag(self.vertical.x as int * t, SCALE as int);
            lemma_tdiv_mag(self.vertical.y as int * t, SCALE as int);
            lemma_tdiv_mag(self.vertical.z as int * t, SCALE as int);
            lemma_div_bound(iabs(self.horizontal.x as int * s), 30_000_000, SCALE as int);
            lemma_div_bound(iabs(self.horizontal.y as int * s), 30_000_000, SCALE as int);
            lemma_div_bound(iabs(self.horizontal.z as int * s), 30_000_000, SCALE as int);
            lemma_div_bound(iabs(self.vertical.x as int * t), 30_000_000, SCALE as int);
            lemma_div_bound(iabs(self.vertical.y as int * t), 30_000_000, SCALE as int);
            lemma_div_bound(iabs(self.vertical.z as int * t), 30_000_000, SCALE as int);
        }
        let dir0 = self.lower_left_corner.add(self.horizontal.scale(s)).add(
            self.vertical.scale(t),
        ).sub(self.origin).sub(offset);
        let dir = if dir0.near_zero() {
            Vec3 { x: 0, y: 0, z: -SCALE }
        } else {
            dir0
        };
        Ray::new(self.origin.add(offset), dir)
    }
}

} // verus!
