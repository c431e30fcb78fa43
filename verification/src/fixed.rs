//! Fixed-point scalar arithmetic.
//!
//! A scalar is an `i64` holding a real number times [`SCALE`] (one millionth
//! resolution), so `1_000_000` is one unit and `500_000` is one half.
//! Multiplication and division round toward zero; every operation's contract
//! gives the exact integer result via [`tdiv`].

use vstd::arithmetic::div_mod::*;
use vstd::prelude::*;

verus! {

/// Number of fixed-point steps in one real unit.
pub const SCALE: i64 = 1_000_000;

/// Largest product magnitude (in raw steps squared) that `fx_mul` accepts:
/// the quotient by `SCALE` then fits an `i64`.
pub const MUL_IN_MAX: i128 = 9_000_000_000_000_000_000_000_000;

/// Largest numerator magnitude accepted by `fx_div`.
pub const DIV_IN_MAX: i64 = 9_000_000_000_000;

/// Largest radicand accepted by `isqrt`.
pub const SQRT_IN_MAX: u128 = 19_000_000_000_000_000_000_000_000;

/// Magnitude of an integer.
pub open spec fn iabs(a: int) -> int {
    if a < 0 {
        -a
    } else {
        a
    }
}

/// Division rounding toward zero, the rounding used by every fixed-point
/// operation here. Unspecified for `b == 0`.
pub open spec fn tdiv(a: int, b: int) -> int {
    if (a < 0) == (b < 0) {
        iabs(a) / iabs(b)
    } else {
        -(iabs(a) / iabs(b))
    }
}

/// The quotient's magnitude never exceeds the numerator's magnitude divided
/// by the divisor's.
pub proof fn lemma_tdiv_mag(a: int, b: int)
    requires
        b != 0,
    ensures
        iabs(tdiv(a, b)) == iabs(a) / iabs(b),
        iabs(tdiv(a, b)) <= iabs(a),
        0 <= iabs(a),
        1 <= iabs(b),
{
    lemma_div_nonincreasing(iabs(a), iabs(b));
    lemma_div_pos_is_pos(iabs(a), iabs(b));
}

/// Rounding toward zero agrees with Euclidean division when both operands
/// are nonnegative.
pub proof fn lemma_tdiv_nonneg(a: int, b: int)
    requires
        0 <= a,
        0 < b,
    ensures
        tdiv(a, b) == a / b,
        0 <= tdiv(a, b),
{
    lemma_div_pos_is_pos(a, b);
}

/// When the divisor divides the numerator exactly, rounding toward zero
/// agrees with Euclidean division and the division is exact.
pub proof fn lemma_tdiv_exact(a: int, b: int)
    requires
        0 < b,
        a % b == 0,
    ensures
        tdiv(a, b) == a / b,
        tdiv(a, b) * b == a,
{
    lemma_fundamental_div_mod(a, b);
    if a < 0 {
        assert(-a == b * (-(a / b)) + 0) by (nonlinear_arith)
            requires
                a == b * (a / b) + 0,
        ;
        lemma_fundamental_div_mod_converse(-a, b, -(a / b), 0);
    }
    assert(b * (a / b) == (a / b) * b) by (nonlinear_arith);
}

/// `(q * b) / b == q` under rounding toward zero.
pub proof fn lemma_tdiv_mul_cancel(q: int, b: int)
    requires
        0 < b,
    ensures
        (q * b) % b == 0,
        tdiv(q * b, b) == q,
{
    lemma_mod_multiples_basic(q, b);
    lemma_tdiv_exact(q * b, b);
    lemma_fundamental_div_mod_converse(q * b, b, q, 0);
}

/// A quotient of nonnegatives is at most `c` as soon as the numerator is at
/// most `c` times the divisor.
pub proof fn lemma_div_bound(x: int, c: int, d: int)
    requires
        0 <= x,
        0 <= c,
        0 < d,
        x <= c * d,
    ensures
        x / d <= c,
{
    lemma_div_is_ordered(x, c * d, d);
    lemma_div_multiples_vanish(c, d);
    assert(d * c == c * d) by (nonlinear_arith);
}

/// Strict version: the quotient stays strictly below `c` when the numerator
/// is strictly below `c` times the divisor.
pub proof fn lemma_div_strict_bound(x: int, c: int, d: int)
    requires
        0 <= x,
        0 <= c,
        0 < d,
        x < c * d,
    ensures
        x / d < c,
{
    lemma_fundamental_div_mod(x, d);
    lemma_div_pos_is_pos(x, d);
    assert(x / d < c) by (nonlinear_arith)
        requires
            x == d * (x / d) + x % d,
            0 <= x % d,
            x < c * d,
            0 < d,
            0 <= x / d,
    ;
}

/// Bound on a product from bounds on its factors.
pub proof fn lemma_mul_fits(a: int, b: int, aa: int, bb: int)
    by (nonlinear_arith)
    requires
        -aa <= a <= aa,
        -bb <= b <= bb,
        0 <= aa,
        0 <= bb,
    ensures
        -(aa * bb) <= a * b <= aa * bb,
{
}

/// Scales a wide intermediate back down by `SCALE`, rounding toward zero.
pub fn fx_scale_down(p: i128) -> (r: i64)
    requires
        -MUL_IN_MAX <= p <= MUL_IN_MAX,
    ensures
        r == tdiv(p as int, SCALE as int),
{
    let q: i128 = if p >= 0 {
        proof {
            lemma_div_pos_is_pos(p as int, 1_000_000);
            lemma_div_is_ordered(p as int, MUL_IN_MAX as int, 1_000_000);
        }
        ((p as u128) / 1_000_000u128) as i128
    } else {
        proof {
            lemma_div_pos_is_pos(-p, 1_000_000);
            lemma_div_is_ordered(-p, MUL_IN_MAX as int, 1_000_000);
        }
        -(((-p) as u128 / 1_000_000u128) as i128)
    };
    q as i64
}

/// Fixed-point product: `(a * b) / SCALE`, rounded toward zero.
pub fn fx_mul(a: i64, b: i64) -> (r: i64)
    requires
        -MUL_IN_MAX <= (a as int) * (b as int) <= MUL_IN_MAX,
    ensures
        r == tdiv((a as int) * (b as int), SCALE as int),
{
    fx_scale_down((a as i128) * (b as i128))
}

/// Fixed-point quotient: `(a * SCALE) / b`, rounded toward zero.
pub fn fx_div(a: i64, b: i64) -> (r: i64)
    requires
        b != 0,
        -DIV_IN_MAX <= a <= DIV_IN_MAX,
    ensures
        r == tdiv((a as int) * (SCALE as int), b as int),
{
    let num: i128 = (a as i128) * 1_000_000;
    let na: u128 = if num >= 0 {
        num as u128
    } else {
        (-num) as u128
    };
    let nb: u128 = if b >= 0 {
        (b as i128) as u128
    } else {
        (-(b as i128)) as u128
    };
    let mag: u128 = na / nb;
    proof {
        lemma_div_pos_is_pos(na as int, nb as int);
        lemma_div_nonincreasing(na as int, nb as int);
    }
    if (num >= 0) == (b >= 0) {
        mag as i64
    } else {
        -(mag as i64)
    }
}

/// Floor of the square root, as a recurrence; `lemma_sqrt_floor_bounds`
/// gives its defining inequalities.
pub open spec fn sqrt_floor(n: int) -> int
    decreases n,
{
    if n <= 0 {
        0
    } else {
        let p = sqrt_floor(n - 1);
        if (p + 1) * (p + 1) <= n {
            p + 1
        } else {
            p
        }
    }
}

pub proof fn lemma_sqrt_floor_bounds(n: int)
    requires
        0 <= n,
    ensures
        0 <= sqrt_floor(n),
        sqrt_floor(n) * sqrt_floor(n) <= n,
        n < (sqrt_floor(n) + 1) * (sqrt_floor(n) + 1),
    decreases n,
{
    if n > 0 {
        lemma_sqrt_floor_bounds(n - 1);
        let p = sqrt_floor(n - 1);
        if (p + 1) * (p + 1) <= n {
            assert(n == (p + 1) * (p + 1));
            assert((p + 1) * (p + 1) < (p + 2) * (p + 2)) by (nonlinear_arith)
                requires
                    0 <= p,
            ;
        }
    }
}

pub proof fn lemma_sqrt_floor_unique(n: int, r: int)
    requires
        0 <= n,
        0 <= r,
        r * r <= n,
        n < (r + 1) * (r + 1),
    ensures
        r == sqrt_floor(n),
{
    lemma_sqrt_floor_bounds(n);
    let s = sqrt_floor(n);
    if r < s {
        assert((r + 1) * (r + 1) <= s * s) by (nonlinear_arith)
            requires
                0 <= r,
                r + 1 <= s,
        ;
    }
    if s < r {
        assert((s + 1) * (s + 1) <= r * r) by (nonlinear_arith)
            requires
                0 <= s,
                s + 1 <= r,
        ;
    }
}

pub proof fn lemma_sqrt_floor_mono(a: int, b: int)
    requires
        0 <= a <= b,
    ensures
        sqrt_floor(a) <= sqrt_floor(b),
{
    lemma_sqrt_floor_bounds(a);
    lemma_sqrt_floor_bounds(b);
    let sa = sqrt_floor(a);
    let sb = sqrt_floor(b);
    if sb < sa {
        assert((sb + 1) * (sb + 1) <= sa * sa) by (nonlinear_arith)
            requires
                0 <= sb,
                sb + 1 <= sa,
        ;
    }
}

/// Floor of the square root of `n`, by bisection.
pub fn isqrt(n: u128) -> (r: u64)
    requires
        n <= SQRT_IN_MAX,
    ensures
        r == sqrt_floor(n as int),
        r <= 4_398_046_511_104u64,
{
    let mut lo: u64 = 0;
    let mut hi: u64 = 4_398_046_511_104;
    assert((hi + 1) * (hi + 1) > SQRT_IN_MAX);
    while lo < hi
        invariant
            lo <= hi <= 4_398_046_511_104u64,
            (lo as int) * (lo as int) <= n as int,
            (n as int) < ((hi as int) + 1) * ((hi as int) + 1),
        decreases hi - lo,
    {
        let mid: u64 = lo + (hi - lo + 1) / 2;
        proof {
            assert(mid <= 4_398_046_511_104u64);
            assert((mid as int) * (mid as int) <= 19_342_813_113_834_066_795_298_816int)
                by (nonlinear_arith)
                requires
                    0 <= mid as int <= 4_398_046_511_104int,
            ;
        }
        if (mid as u128) * (mid as u128) <= n {
            lo = mid;
        } else {
            hi = mid - 1;
        }
    }
    proof {
        lemma_sqrt_floor_unique(n as int, lo as int);
    }
    lo
}

/// Fixed-point square root: `sqrt_floor(a * SCALE)`, so a perfect-square
/// input gives the exact root (`fx_sqrt` of one unit is one unit).
pub fn fx_sqrt(a: i64) -> (r: i64)
    requires
        0 <= a,
    ensures
        r == sqrt_floor((a as int) * (SCALE as int)),
        0 <= r < 3_040_000_000_000,
{
    let n: u128 = (a as u128) * 1_000_000;
    let r: u64 = isqrt(n);
    proof {
        lemma_sqrt_floor_bounds(n as int);
        assert(r < 3_040_000_000_000) by (nonlinear_arith)
            requires
                0 <= r,
                (r as int) * (r as int) <= n as int,
                n as int <= 9_223_372_036_854_775_807i64 as int * 1_000_000,
        ;
    }
    r as i64
}

/// Clamp `v` into `[lo, hi]`.
pub fn clamp(v: i64, lo: i64, hi: i64) -> (r: i64)
    requires
        lo <= hi,
    ensures
        r == clamp_spec(v as int, lo as int, hi as int),
{
    if v < lo {
        lo
    } else if v > hi {
        hi
    } else {
        v
    }
}

pub open spec fn clamp_spec(v: int, lo: int, hi: int) -> int {
    if v < lo {
        lo
    } else if v > hi {
        hi
    } else {
        v
    }
}

} // verus!
