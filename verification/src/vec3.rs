//! 3D vectors over fixed-point scalars.
//!
//! `Point3` and `Color` are semantic aliases of [`Vec3`]; a color channel
//! holds radiance in `[0, SCALE]` once tone-mapped. Every operation's
//! contract gives the exact integer result; `lemma_reflect_flips_normal`
//! and `lemma_unit_vector_idempotent` state the algebraic laws that survive
//! rounding exactly.

use crate::fixed::{
    fx_div, fx_mul, fx_scale_down, fx_sqrt, iabs, lemma_div_bound, lemma_mul_fits,
    lemma_sqrt_floor_bounds, lemma_sqrt_floor_mono, lemma_sqrt_floor_unique, lemma_tdiv_exact,
    lemma_tdiv_mag, lemma_tdiv_mul_cancel, lemma_tdiv_nonneg, sqrt_floor, tdiv, MUL_IN_MAX, SCALE,
};
use vstd::arithmetic::div_mod::*;
use vstd::prelude::*;

verus! {

/// A thousandth of a unit: vectors whose components all stay below this
/// magnitude count as degenerate scatter directions.
pub const NEAR_EPS: i64 = 1_000;

#[derive(Clone, Copy, Debug, PartialEq, Eq, Structural)]
pub struct Vec3 {
    pub x: i64,
    pub y: i64,
    pub z: i64,
}

/// Builds a vector from mathematical integers; exact whenever the values
/// fit an `i64`.
pub open spec fn v3(x: int, y: int, z: int) -> Vec3 {
    Vec3 { x: x as i64, y: y as i64, z: z as i64 }
}

/// All three components lie in `[-m, m]`.
pub open spec fn in_box(v: Vec3, m: int) -> bool {
    &&& -m <= v.x <= m
    &&& -m <= v.y <= m
    &&& -m <= v.z <= m
}

pub open spec fn spec_add(a: Vec3, b: Vec3) -> Vec3 {
    v3(a.x + b.x, a.y + b.y, a.z + b.z)
}

pub open spec fn spec_sub(a: Vec3, b: Vec3) -> Vec3 {
    v3(a.x - b.x, a.y - b.y, a.z - b.z)
}

pub open spec fn spec_neg(a: Vec3) -> Vec3 {
    v3(-a.x, -a.y, -a.z)
}

pub open spec fn spec_scale(a: Vec3, s: int) -> Vec3 {
    v3(tdiv(a.x * s, SCALE as int), tdiv(a.y * s, SCALE as int), tdiv(a.z * s, SCALE as int))
}

pub open spec fn spec_hadamard(a: Vec3, b: Vec3) -> Vec3 {
    v3(tdiv(a.x * b.x, SCALE as int), tdiv(a.y * b.y, SCALE as int), tdiv(a.z * b.z, SCALE as int))
}

pub open spec fn spec_dot(a: Vec3, b: Vec3) -> int {
    tdiv(a.x * b.x + a.y * b.y + a.z * b.z, SCALE as int)
}

pub open spec fn spec_cross(a: Vec3, b: Vec3) -> Vec3 {
    v3(
        tdiv(a.y * b.z - a.z * b.y, SCALE as int),
        tdiv(a.z * b.x - a.x * b.z, SCALE as int),
        tdiv(a.x * b.y - a.y * b.x, SCALE as int),
    )
}

pub open spec fn spec_length_squared(a: Vec3) -> int {
    spec_dot(a, a)
}

pub open spec fn spec_length(a: Vec3) -> int {
    sqrt_floor(spec_length_squared(a) * SCALE)
}

pub open spec fn spec_unit(a: Vec3) -> Vec3 {
    v3(
        tdiv(a.x * SCALE, spec_length(a)),
        tdiv(a.y * SCALE, spec_length(a)),
        tdiv(a.z * SCALE, spec_length(a)),
    )
}

pub open spec fn spec_near_zero(a: Vec3) -> bool {
    &&& iabs(a.x as int) < NEAR_EPS
    &&& iabs(a.y as int) < NEAR_EPS
    &&& iabs(a.z as int) < NEAR_EPS
}

pub open spec fn spec_reflect(v: Vec3, n: Vec3) -> Vec3 {
    spec_sub(v, spec_scale(n, 2 * spec_dot(v, n)))
}

/// Snell refraction of `v` about `n`, split into the component
/// perpendicular and the component parallel to the normal.
pub open spec fn spec_refract(v: Vec3, n: Vec3, ratio: int) -> Vec3 {
    let d = spec_dot(spec_neg(v), n);
    let cos = if d > SCALE {
        SCALE as int
    } else {
        d
    };
    let perp = spec_scale(spec_add(v, spec_scale(n, cos)), ratio);
    let pls = spec_length_squared(perp);
    let k = if SCALE >= pls {
        SCALE - pls
    } else {
        pls - SCALE
    };
    spec_add(perp, spec_scale(n, -sqrt_floor(k * SCALE)))
}

/// The computed length dominates half of each component's magnitude; this
/// is what keeps every component of a normalized vector below two units.
proof fn lemma_half_len(mi: int, sum: int, ls: int, len: int)
    requires
        0 <= mi,
        mi * mi <= sum,
        ls == sum / (SCALE as int),
        1 <= ls,
        len == sqrt_floor(ls * (SCALE as int)),
    ensures
        1000 <= len,
        mi <= 2 * len,
{
    assert(ls * (SCALE as int) >= SCALE as int) by (nonlinear_arith)
        requires
            1 <= ls,
    ;
    lemma_sqrt_floor_mono(SCALE as int, ls * (SCALE as int));
    lemma_sqrt_floor_unique(SCALE as int, 1000);
    if mi > 2000 {
        let c = (mi + 1) / 2;
        lemma_fundamental_div_mod(mi + 1, 2);
        assert(2 * c <= mi + 1 && mi <= 2 * c);
        lemma_fundamental_div_mod(sum, SCALE as int);
        assert(ls * (SCALE as int) >= sum - 1_000_000 + 1) by (nonlinear_arith)
            requires
                ls == sum / 1_000_000int,
                sum == 1_000_000int * (sum / 1_000_000int) + sum % 1_000_000int,
                sum % 1_000_000int < 1_000_000,
    ;
        assert(c * c <= ls * (SCALE as int)) by (nonlinear_arith)
            requires
                0 <= c,
                2 * c <= mi + 1,
                2000 < mi,
                mi * mi <= sum,
                ls * (SCALE as int) >= sum - 1_000_000 + 1,
        ;
        assert(0 <= c * c) by (nonlinear_arith)
            requires
                0 <= c,
        ;
        assert(c * c < (c + 1) * (c + 1)) by (nonlinear_arith)
            requires
                0 <= c,
        ;
        lemma_sqrt_floor_mono(c * c, ls * (SCALE as int));
        lemma_sqrt_floor_unique(c * c, c);
    }
}

/// A component divided by a length at least half its magnitude stays within
/// two units.
proof fn lemma_unit_component(vi: int, len: int)
    requires
        1000 <= len,
        iabs(vi) <= 2 * len,
    ensures
        -2 * (SCALE as int) <= tdiv(vi * SCALE, len) <= 2 * (SCALE as int),
{
    let m = iabs(vi);
    lemma_tdiv_mag(vi * (SCALE as int), len);
    assert(iabs(vi * (SCALE as int)) == m * (SCALE as int));
    assert(m * (SCALE as int) <= (2 * (SCALE as int)) * len) by (nonlinear_arith)
        requires
            0 <= m,
            m <= 2 * len,
            0 < len,
    ;
    lemma_div_bound(m * (SCALE as int), 2 * (SCALE as int), len);
}

/// The arguments of a three-term dot product stay inside every limit the
/// implementation needs.
pub proof fn lemma_dot_fits(a: Vec3, b: Vec3, ab: int, bb: int)
    requires
        in_box(a, ab),
        in_box(b, bb),
        0 <= ab,
        0 <= bb,
        3 * (ab * bb) <= MUL_IN_MAX,
    ensures
        -(ab * bb) <= a.x * b.x <= ab * bb,
        -(ab * bb) <= a.y * b.y <= ab * bb,
        -(ab * bb) <= a.z * b.z <= ab * bb,
        -(3 * (ab * bb)) <= a.x * b.x + a.y * b.y + a.z * b.z <= 3 * (ab * bb),
        -MUL_IN_MAX <= a.x * b.x <= MUL_IN_MAX,
        -MUL_IN_MAX <= a.y * b.y <= MUL_IN_MAX,
        -MUL_IN_MAX <= a.z * b.z <= MUL_IN_MAX,
        -MUL_IN_MAX <= a.x * b.x + a.y * b.y + a.z * b.z <= MUL_IN_MAX,
{
    assert(0 <= ab * bb && ab * bb <= 3 * (ab * bb)) by (nonlinear_arith)
        requires
            0 <= ab,
            0 <= bb,
    ;
    lemma_mul_fits(a.x as int, b.x as int, ab, bb);
    lemma_mul_fits(a.y as int, b.y as int, ab, bb);
    lemma_mul_fits(a.z as int, b.z as int, ab, bb);
    assert(3 * ab * bb == 3 * (ab * bb)) by (nonlinear_arith);
}

/// Normalization is idempotent: a vector whose computed length is exactly
/// one unit is left unchanged by normalizing it again.
pub proof fn lemma_unit_vector_idempotent(u: Vec3)
    requires
        spec_length(u) == SCALE,
    ensures
        spec_unit(u) == u,
{
    lemma_tdiv_mul_cancel(u.x as int, SCALE as int);
    lemma_tdiv_mul_cancel(u.y as int, SCALE as int);
    lemma_tdiv_mul_cancel(u.z as int, SCALE as int);
}

/// Round trip: whenever normalizing `v` lands exactly on the unit sphere of
/// the fixed-point grid, normalizing twice equals normalizing once.
pub proof fn lemma_unit_vector_round_trip(v: Vec3)
    requires
        spec_length(spec_unit(v)) == SCALE,
    ensures
        spec_unit(spec_unit(v)) == spec_unit(v),
{
    lemma_unit_vector_idempotent(spec_unit(v));
}

/// Reflection flips the sign of the normal component while preserving its
/// magnitude: `dot(reflect(v, n), n) == -dot(v, n)` for every exactly-unit
/// normal `n`, provided the two interior products land on the fixed-point
/// grid (their remainders modulo `SCALE` vanish), so that no rounding
/// occurs. Axis-aligned unit normals satisfy these hypotheses for every `v`.
pub proof fn lemma_reflect_flips_normal(v: Vec3, n: Vec3)
    requires
        in_box(v, 3_000_000),
        in_box(n, 2_000_000),
        n.x * n.x + n.y * n.y + n.z * n.z == 1_000_000_000_000,
        (v.x * n.x + v.y * n.y + v.z * n.z) % 1_000_000 == 0,
        (n.x * (2 * spec_dot(v, n))) % 1_000_000 == 0,
        (n.y * (2 * spec_dot(v, n))) % 1_000_000 == 0,
        (n.z * (2 * spec_dot(v, n))) % 1_000_000 == 0,
    ensures
        spec_dot(spec_reflect(v, n), n) == -spec_dot(v, n),
{
    let sum = v.x * n.x + v.y * n.y + v.z * n.z;
    lemma_mul_fits(v.x as int, n.x as int, 3_000_000, 2_000_000);
    lemma_mul_fits(v.y as int, n.y as int, 3_000_000, 2_000_000);
    lemma_mul_fits(v.z as int, n.z as int, 3_000_000, 2_000_000);
    lemma_tdiv_exact(sum, 1_000_000);
    let d = spec_dot(v, n);
    assert(d * 1_000_000 == sum);
    let s = 2 * d;
    lemma_mul_fits(n.x as int, s, 2_000_000, 36_000_000);
    lemma_mul_fits(n.y as int, s, 2_000_000, 36_000_000);
    lemma_mul_fits(n.z as int, s, 2_000_000, 36_000_000);
    lemma_tdiv_exact(n.x * s, 1_000_000);
    lemma_tdiv_exact(n.y * s, 1_000_000);
    lemma_tdiv_exact(n.z * s, 1_000_000);
    let ex = tdiv(n.x * s, 1_000_000);
    let ey = tdiv(n.y * s, 1_000_000);
    let ez = tdiv(n.z * s, 1_000_000);
    let r = spec_reflect(v, n);
    assert(r.x == v.x - ex && r.y == v.y - ey && r.z == v.z - ez);
    assert(r.x * n.x == v.x * n.x - ex * n.x) by (nonlinear_arith)
        requires
            r.x == v.x - ex,
    ;
    assert(r.y * n.y == v.y * n.y - ey * n.y) by (nonlinear_arith)
        requires
            r.y == v.y - ey,
    ;
    assert(r.z * n.z == v.z * n.z - ez * n.z) by (nonlinear_arith)
        requires
            r.z == v.z - ez,
    ;
    assert(ex * n.x * 1_000_000 == s * (n.x * n.x)) by (nonlinear_arith)
        requires
            ex * 1_000_000 == n.x * s,
    ;
    assert(ey * n.y * 1_000_000 == s * (n.y * n.y)) by (nonlinear_arith)
        requires
            ey * 1_000_000 == n.y * s,
    ;
    assert(ez * n.z * 1_000_000 == s * (n.z * n.z)) by (nonlinear_arith)
        requires
            ez * 1_000_000 == n.z * s,
    ;
    assert(s * (n.x * n.x) + s * (n.y * n.y) + s * (n.z * n.z) == s * 1_000_000_000_000)
        by (nonlinear_arith)
        requires
            n.x * n.x + n.y * n.y + n.z * n.z == 1_000_000_000_000,
    ;
    assert(ex * n.x + ey * n.y + ez * n.z == s * 1_000_000);
    assert(r.x * n.x + r.y * n.y + r.z * n.z == (-d) * 1_000_000);
    lemma_tdiv_mul_cancel(-d, 1_000_000);
}

impl Vec3 {
    pub fn new(x: i64, y: i64, z: i64) -> (r: Vec3)
        ensures
            r == (Vec3 { x, y, z }),
    {
        Vec3 { x, y, z }
    }

    /// Component by index; indices past 2 are a programming error and are
    /// excluded by the precondition.
    pub fn index(self, i: usize) -> (r: i64)
        requires
            i < 3,
        ensures
            i == 0 ==> r == self.x,
            i == 1 ==> r == self.y,
            i == 2 ==> r == self.z,
    {
        if i == 0 {
            self.x
        } else if i == 1 {
            self.y
        } else {
            self.z
        }
    }

    pub fn add(self, rhs: Vec3) -> (r: Vec3)
        requires
            in_box(self, 4_000_000_000_000_000_000),
            in_box(rhs, 4_000_000_000_000_000_000),
        ensures
            r == spec_add(self, rhs),
    {
        Vec3 { x: self.x + rhs.x, y: self.y + rhs.y, z: self.z + rhs.z }
    }

    pub fn sub(self, rhs: Vec3) -> (r: Vec3)
        requires
            in_box(self, 4_000_000_000_000_000_000),
            in_box(rhs, 4_000_000_000_000_000_000),
        ensures
            r == spec_sub(self, rhs),
    {
        Vec3 { x: self.x - rhs.x, y: self.y - rhs.y, z: self.z - rhs.z }
    }

    pub fn neg(self) -> (r: Vec3)
        requires
            in_box(self, 4_000_000_000_000_000_000),
        ensures
            r == spec_neg(self),
    {
        Vec3 { x: -self.x, y: -self.y, z: -self.z }
    }

    /// Scalar multiple `self * s` (fixed-point).
    pub fn scale(self, s: i64) -> (r: Vec3)
        requires
            -MUL_IN_MAX <= self.x * s <= MUL_IN_MAX,
            -MUL_IN_MAX <= self.y * s <= MUL_IN_MAX,
            -MUL_IN_MAX <= self.z * s <= MUL_IN_MAX,
        ensures
            r == spec_scale(self, s as int),
    {
        Vec3 { x: fx_mul(self.x, s), y: fx_mul(self.y, s), z: fx_mul(self.z, s) }
    }

    /// Component-wise product; this is how an attenuation color filters a
    /// radiance color.
    pub fn hadamard(self, rhs: Vec3) -> (r: Vec3)
        requires
            -MUL_IN_MAX <= self.x * rhs.x <= MUL_IN_MAX,
            -MUL_IN_MAX <= self.y * rhs.y <= MUL_IN_MAX,
            -MUL_IN_MAX <= self.z * rhs.z <= MUL_IN_MAX,
        ensures
            r == spec_hadamard(self, rhs),
    {
        Vec3 { x: fx_mul(self.x, rhs.x), y: fx_mul(self.y, rhs.y), z: fx_mul(self.z, rhs.z) }
    }

    pub fn dot(self, rhs: Vec3) -> (r: i64)
        requires
            -MUL_IN_MAX <= self.x * rhs.x <= MUL_IN_MAX,
            -MUL_IN_MAX <= self.y * rhs.y <= MUL_IN_MAX,
            -MUL_IN_MAX <= self.z * rhs.z <= MUL_IN_MAX,
            -MUL_IN_MAX <= self.x * rhs.x + self.y * rhs.y + self.z * rhs.z <= MUL_IN_MAX,
        ensures
            r == spec_dot(self, rhs),
    {
        let p: i128 = (self.x as i128) * (rhs.x as i128) + (self.y as i128) * (rhs.y as i128)
            + (self.z as i128) * (rhs.z as i128);
        fx_scale_down(p)
    }

    pub fn cross(self, rhs: Vec3) -> (r: Vec3)
        requires
            -MUL_IN_MAX <= self.x * rhs.y <= MUL_IN_MAX,
            -MUL_IN_MAX <= self.x * rhs.z <= MUL_IN_MAX,
            -MUL_IN_MAX <= self.y * rhs.x <= MUL_IN_MAX,
            -MUL_IN_MAX <= self.y * rhs.z <= MUL_IN_MAX,
            -MUL_IN_MAX <= self.z * rhs.x <= MUL_IN_MAX,
            -MUL_IN_MAX <= self.z * rhs.y <= MUL_IN_MAX,
            -MUL_IN_MAX <= self.y * rhs.z - self.z * rhs.y <= MUL_IN_MAX,
            -MUL_IN_MAX <= self.z * rhs.x - self.x * rhs.z <= MUL_IN_MAX,
            -MUL_IN_MAX <= self.x * rhs.y - self.y * rhs.x <= MUL_IN_MAX,
        ensures
            r == spec_cross(self, rhs),
    {
        Vec3 {
            x: fx_scale_down((self.y as i128) * (rhs.z as i128) - (self.z as i128) * (rhs.y as i128)),
            y: fx_scale_down((self.z as i128) * (rhs.x as i128) - (self.x as i128) * (rhs.z as i128)),
            z: fx_scale_down((self.x as i128) * (rhs.y as i128) - (self.y as i128) * (rhs.x as i128)),
        }
    }

    pub fn length_squared(self) -> (r: i64)
        requires
            -MUL_IN_MAX <= self.x * self.x,
            -MUL_IN_MAX <= self.y * self.y,
            -MUL_IN_MAX <= self.z * self.z,
            self.x * self.x + self.y * self.y + self.z * self.z <= MUL_IN_MAX,
        ensures
            r == spec_length_squared(self),
            r >= 0,
    {
        proof {
            assert(self.x * self.x >= 0 && self.y * self.y >= 0 && self.z * self.z >= 0)
                by (nonlinear_arith);
            lemma_tdiv_nonneg(
                self.x * self.x + self.y * self.y + self.z * self.z,
                SCALE as int,
            );
        }
        self.dot(self)
    }

    pub fn length(self) -> (r: i64)
        requires
            -MUL_IN_MAX <= self.x * self.x,
            -MUL_IN_MAX <= self.y * self.y,
            -MUL_IN_MAX <= self.z * self.z,
            self.x * self.x + self.y * self.y + self.z * self.z <= MUL_IN_MAX,
        ensures
            r == spec_length(self),
            0 <= r < 3_040_000_000_000,
    {
        let ls = self.length_squared();
        fx_sqrt(ls)
    }

    /// Direction scaled to unit length. The caller guarantees a length of
    /// at least a thousandth of a unit; every component of the result then
    /// lies within two units of zero.
    pub fn unit_vector(self) -> (r: Vec3)
        requires
            in_box(self, 1_000_000_000_000),
            spec_length_squared(self) >= 1,
        ensures
            r == spec_unit(self),
            in_box(r, 2 * SCALE),
    {
        proof {
            lemma_dot_fits(self, self, 1_000_000_000_000, 1_000_000_000_000);
        }
        let len = self.length();
        let ghost sum: int = self.x * self.x + self.y * self.y + self.z * self.z;
        let ghost ls: int = spec_length_squared(self);
        proof {
            assert(self.x * self.x >= 0 && self.y * self.y >= 0 && self.z * self.z >= 0)
                by (nonlinear_arith);
            lemma_tdiv_nonneg(sum, SCALE as int);
            let mx = iabs(self.x as int);
            let my = iabs(self.y as int);
            let mz = iabs(self.z as int);
            assert(mx * mx == self.x * self.x) by (nonlinear_arith)
                requires
                    mx == self.x as int || mx == -(self.x as int),
            ;
            assert(my * my == self.y * self.y) by (nonlinear_arith)
                requires
                    my == self.y as int || my == -(self.y as int),
            ;
            assert(mz * mz == self.z * self.z) by (nonlinear_arith)
                requires
                    mz == self.z as int || mz == -(self.z as int),
            ;
            lemma_half_len(mx, sum, ls, len as int);
            lemma_half_len(my, sum, ls, len as int);
            lemma_half_len(mz, sum, ls, len as int);
        }
        let rx = fx_div(self.x, len);
        let ry = fx_div(self.y, len);
        let rz = fx_div(self.z, len);
        proof {
            lemma_unit_component(self.x as int, len as int);
            lemma_unit_component(self.y as int, len as int);
            lemma_unit_component(self.z as int, len as int);
        }
        Vec3 { x: rx, y: ry, z: rz }
    }

    /// Mirror reflection about the normal `n`.
    pub fn reflect(self, n: Vec3) -> (r: Vec3)
        requires
            in_box(self, 3_000_000),
            in_box(n, 3_000_000),
        ensures
            r == spec_reflect(self, n),
            in_box(r, 165_000_000),
    {
        proof {
            lemma_dot_fits(self, n, 3_000_000int, 3_000_000int);
        }
        let d = self.dot(n);
        proof {
            lemma_tdiv_mag(
                self.x * n.x + self.y * n.y + self.z * n.z,
                SCALE as int,
            );
            lemma_div_bound(
                iabs(self.x * n.x + self.y * n.y + self.z * n.z),
                27_000_000,
                SCALE as int,
            );
            lemma_mul_fits(n.x as int, 2 * d, 3_000_000int, 54_000_000);
            lemma_mul_fits(n.y as int, 2 * d, 3_000_000int, 54_000_000);
            lemma_mul_fits(n.z as int, 2 * d, 3_000_000int, 54_000_000);
        }
        let nn = n.scale(2 * d);
        proof {
            lemma_tdiv_mag(n.x as int * (2 * d), SCALE as int);
            lemma_tdiv_mag(n.y as int * (2 * d), SCALE as int);
            lemma_tdiv_mag(n.z as int * (2 * d), SCALE as int);
            lemma_div_bound(iabs(n.x as int * (2 * d)), 162_000_000, SCALE as int);
            lemma_div_bound(iabs(n.y as int * (2 * d)), 162_000_000, SCALE as int);
            lemma_div_bound(iabs(n.z as int * (2 * d)), 162_000_000, SCALE as int);
        }
        self.sub(nn)
    }

    /// Snell refraction with index ratio `etai_over_etat` (fixed-point).
    pub fn refract(self, n: Vec3, etai_over_etat: i64) -> (r: Vec3)
        requires
            in_box(self, 3_000_000),
            in_box(n, 3_000_000),
            0 <= etai_over_etat <= 42_000_000,
        ensures
            r == spec_refract(self, n, etai_over_etat as int),
            in_box(r, 23_000_000_000),
    {
        proof {
            lemma_dot_fits(spec_neg(self), n, 3_000_000int, 3_000_000int);
        }
        let d = self.neg().dot(n);
        let cos_theta: i64 = if d > SCALE {
            SCALE
        } else {
            d
        };
        proof {
            let nv = spec_neg(self);
            lemma_tdiv_mag(nv.x * n.x + nv.y * n.y + nv.z * n.z, SCALE as int);
            lemma_div_bound(iabs(nv.x * n.x + nv.y * n.y + nv.z * n.z), 27_000_000, SCALE as int);
            lemma_mul_fits(n.x as int, cos_theta as int, 3_000_000int, 27_000_000);
            lemma_mul_fits(n.y as int, cos_theta as int, 3_000_000int, 27_000_000);
            lemma_mul_fits(n.z as int, cos_theta as int, 3_000_000int, 27_000_000);
            lemma_tdiv_mag(n.x as int * cos_theta, SCALE as int);
            lemma_tdiv_mag(n.y as int * cos_theta, SCALE as int);
            lemma_tdiv_mag(n.z as int * cos_theta, SCALE as int);
            lemma_div_bound(iabs(n.x as int * cos_theta), 81_000_000, SCALE as int);
            lemma_div_bound(iabs(n.y as int * cos_theta), 81_000_000, SCALE as int);
            lemma_div_bound(iabs(n.z as int * cos_theta), 81_000_000, SCALE as int);
        }
        let mid = self.add(n.scale(cos_theta));
        proof {
            lemma_mul_fits(mid.x as int, etai_over_etat as int, 84_000_000, 42_000_000);
            lemma_mul_fits(mid.y as int, etai_over_etat as int, 84_000_000, 42_000_000);
            lemma_mul_fits(mid.z as int, etai_over_etat as int, 84_000_000, 42_000_000);
            lemma_tdiv_mag(mid.x as int * etai_over_etat, SCALE as int);
            lemma_tdiv_mag(mid.y as int * etai_over_etat, SCALE as int);
            lemma_tdiv_mag(mid.z as int * etai_over_etat, SCALE as int);
            lemma_div_bound(iabs(mid.x as int * etai_over_etat), 3_528_000_000, SCALE as int);
            lemma_div_bound(iabs(mid.y as int * etai_over_etat), 3_528_000_000, SCALE as int);
            lemma_div_bound(iabs(mid.z as int * etai_over_etat), 3_528_000_000, SCALE as int);
        }
        let perp = mid.scale(etai_over_etat);
        proof {
            lemma_dot_fits(perp, perp, 3_528_000_000, 3_528_000_000);
            let psum: int = perp.x * perp.x + perp.y * perp.y + perp.z * perp.z;
            assert(psum <= 3 * 3_528_000_000i64 * 3_528_000_000i64) by (nonlinear_arith)
                requires
                    in_box(perp, 3_528_000_000),
                    psum == perp.x * perp.x + perp.y * perp.y + perp.z * perp.z,
            ;
            assert(psum >= 0) by (nonlinear_arith)
                requires
                    psum == perp.x * perp.x + perp.y * perp.y + perp.z * perp.z,
            ;
            lemma_tdiv_nonneg(psum, SCALE as int);
            lemma_div_bound(psum, 37_348_000_000_000, SCALE as int);
        }
        let pls = perp.length_squared();
        let k: i64 = if SCALE >= pls {
            SCALE - pls
        } else {
            pls - SCALE
        };
        let s = fx_sqrt(k);
        proof {
            lemma_sqrt_floor_bounds(k as int * SCALE as int);
            assert(s <= 6_200_000_000i64) by (nonlinear_arith)
                requires
                    0 <= s,
                    (s as int) * (s as int) <= (k as int) * (SCALE as int),
                    0 <= k as int <= 37_348_000_000_000,
            ;
            lemma_mul_fits(n.x as int, -(s as int), 3_000_000int, 6_200_000_000);
            lemma_mul_fits(n.y as int, -(s as int), 3_000_000int, 6_200_000_000);
            lemma_mul_fits(n.z as int, -(s as int), 3_000_000int, 6_200_000_000);
            lemma_tdiv_mag(n.x as int * -(s as int), SCALE as int);
            lemma_tdiv_mag(n.y as int * -(s as int), SCALE as int);
            lemma_tdiv_mag(n.z as int * -(s as int), SCALE as int);
            lemma_div_bound(iabs(n.x as int * -(s as int)), 18_600_000_000, SCALE as int);
            lemma_div_bound(iabs(n.y as int * -(s as int)), 18_600_000_000, SCALE as int);
            lemma_div_bound(iabs(n.z as int * -(s as int)), 18_600_000_000, SCALE as int);
        }
        let par = n.scale(-s);
        perp.add(par)
    }

    pub fn near_zero(self) -> (r: bool)
        ensures
            r == spec_near_zero(self),
    {
        self.x < NEAR_EPS && self.x > -NEAR_EPS && self.y < NEAR_EPS && self.y > -NEAR_EPS
            && self.z < NEAR_EPS && self.z > -NEAR_EPS
    }

    /// Whether all components lie within `[-m, m]`.
    pub fn within(self, m: i64) -> (b: bool)
        requires
            0 <= m,
        ensures
            b == in_box(self, m as int),
    {
        -m <= self.x && self.x <= m && -m <= self.y && self.y <= m && -m <= self.z && self.z <= m
    }
}

impl Default for Vec3 {
    /// The zero vector, which also serves as the color black.
    fn default() -> (r: Vec3)
        ensures
            r == (Vec3 { x: 0i64, y: 0i64, z: 0i64 }),
    {
        Vec3 { x: 0, y: 0, z: 0 }
    }
}

/// A vector that is not near zero has a measurable squared length.
pub proof fn lemma_not_near_zero(v: Vec3)
    requires
        !spec_near_zero(v),
    ensures
        spec_length_squared(v) >= 1,
{
    let sum = v.x * v.x + v.y * v.y + v.z * v.z;
    assert(v.x * v.x >= 0 && v.y * v.y >= 0 && v.z * v.z >= 0) by (nonlinear_arith);
    if iabs(v.x as int) >= 1000 {
        assert(v.x * v.x >= 1_000_000) by (nonlinear_arith)
            requires
                v.x >= 1000 || v.x <= -1000,
        ;
    } else if iabs(v.y as int) >= 1000 {
        assert(v.y * v.y >= 1_000_000) by (nonlinear_arith)
            requires
                v.y >= 1000 || v.y <= -1000,
        ;
    } else {
        assert(v.z * v.z >= 1_000_000) by (nonlinear_arith)
            requires
                v.z >= 1000 || v.z <= -1000,
        ;
    }
    lemma_tdiv_nonneg(sum, SCALE as int);
    lemma_div_is_ordered(1_000_000, sum, 1_000_000);
    lemma_fundamental_div_mod_converse(1_000_000, 1_000_000, 1, 0);
}

} // verus!
