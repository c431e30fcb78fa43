//! Rays: origin plus direction, evaluated at a parameter.

use crate::fixed::{iabs, lemma_div_bound, lemma_tdiv_mag, SCALE};
use crate::vec3::{spec_add, spec_scale, Vec3};
use vstd::prelude::*;

verus! {

#[derive(Clone, Copy, Debug, PartialEq, Eq, Structural)]
pub struct Ray {
    pub orig: Vec3,
    pub dir: Vec3,
}

/// The point `orig + t * dir`.
pub open spec fn spec_at(r: Ray, t: int) -> Vec3 {
    spec_add(r.orig, spec_scale(r.dir, t))
}

impl Ray {
    pub fn new(orig: Vec3, dir: Vec3) -> (r: Ray)
        ensures
            r == (Ray { orig, dir }),
    {
        Ray { orig, dir }
    }

    /// Point at parameter `t` along the ray.
    pub fn at(self, t: i64) -> (p: Vec3)
        requires
            -4_000_000_000_000_000_000_000_000 <= self.dir.x * t <= 4_000_000_000_000_000_000_000_000,
            -4_000_000_000_000_000_000_000_000 <= self.dir.y * t <= 4_000_000_000_000_000_000_000_000,
            -4_000_000_000_000_000_000_000_000 <= self.dir.z * t <= 4_000_000_000_000_000_000_000_000,
            crate::vec3::in_box(self.orig, 4_000_000_000_000_000_000),
        ensures
            p == spec_at(self, t as int),
    {
        let step = self.dir.scale(t);
        proof {
            lemma_tdiv_mag(self.dir.x * t, SCALE as int);
            lemma_tdiv_mag(self.dir.y * t, SCALE as int);
            lemma_tdiv_mag(self.dir.z * t, SCALE as int);
            lemma_div_bound(iabs(self.dir.x * t), 4_000_000_000_000_000_000, SCALE as int);
            lemma_div_bound(iabs(self.dir.y * t), 4_000_000_000_000_000_000, SCALE as int);
            lemma_div_bound(iabs(self.dir.z * t), 4_000_000_000_000_000_000, SCALE as int);
        }
        self.orig.add(step)
    }
}

} // verus!
