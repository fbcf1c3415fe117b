//! Three- and two-dimensional vectors of fixed-point scalars.
use vstd::prelude::*;

use crate::fixed;
use crate::fixed::{
    clip, clip_wide, div_round, in_range, isqrt, lemma_isqrt_exists, lemma_isqrt_ge, round_div, sqrt_wide,
    fx_mul, is_isqrt, LIMIT, ONE,
};

verus! {

/// A free vector or a point in camera space.
#[derive(Debug, Clone, Copy, PartialEq, Eq, Structural)]
pub struct Vector3 {
    pub x: i64,
    pub y: i64,
    pub z: i64,
}

/// A texture coordinate.
#[derive(Debug, Clone, Copy, PartialEq, Eq, Structural)]
pub struct Vector2 {
    pub x: i64,
    pub y: i64,
}

/// The vector with the given (in-range) raw components.
pub open spec fn v3(x: int, y: int, z: int) -> Vector3 {
    Vector3 { x: x as i64, y: y as i64, z: z as i64 }
}

pub open spec fn vadd(a: Vector3, b: Vector3) -> Vector3 {
    v3(clip(a.x + b.x), clip(a.y + b.y), clip(a.z + b.z))
}

pub open spec fn vsub(a: Vector3, b: Vector3) -> Vector3 {
    v3(clip(a.x - b.x), clip(a.y - b.y), clip(a.z - b.z))
}

pub open spec fn vneg(a: Vector3) -> Vector3 {
    v3(-a.x, -a.y, -a.z)
}

/// The exact dot product of the raw components, at scale `ONE * ONE`.
pub open spec fn dot_wide(a: Vector3, b: Vector3) -> int {
    a.x * b.x + a.y * b.y + a.z * b.z
}

/// The dot product, rounded to the nearest raw unit.
pub open spec fn vdot(a: Vector3, b: Vector3) -> int {
    clip(round_div(dot_wide(a, b), ONE as int))
}

/// The cross product, rounded to the nearest raw unit.
pub open spec fn vcross(a: Vector3, b: Vector3) -> Vector3 {
    v3(
        clip(round_div(a.y * b.z - a.z * b.y, ONE as int)),
        clip(round_div(a.z * b.x - a.x * b.z, ONE as int)),
        clip(round_div(a.x * b.y - a.y * b.x, ONE as int)),
    )
}

pub open spec fn vscale(a: Vector3, s: int) -> Vector3 {
    v3(fx_mul(a.x as int, s), fx_mul(a.y as int, s), fx_mul(a.z as int, s))
}

/// The length, from the exact sum of squares, rounded to the nearest raw
/// unit: `floor(sqrt(s) + 1/2) == (isqrt(4 s) + 1) / 2`.
pub open spec fn vlength(a: Vector3) -> int {
    clip((isqrt(4 * dot_wide(a, a)) + 1) / 2)
}

/// `2^20`: the extra precision of the length by which `vnormalize` divides.
pub const NORM_SCALE: i64 = 1048576;

/// The unit vector along `a`, each component rounded to the nearest raw unit;
/// the zero vector where `a` is zero. The length is taken from the exact sum
/// of squares with 20 extra bits, so that the result is correct to the last
/// raw unit at every size.
pub open spec fn vnormalize(a: Vector3) -> Vector3 {
    let s = dot_wide(a, a);
    if s == 0 {
        v3(0, 0, 0)
    } else {
        let l = isqrt(s * NORM_SCALE * NORM_SCALE);
        v3(
            round_div(a.x * ONE * NORM_SCALE, l),
            round_div(a.y * ONE * NORM_SCALE, l),
            round_div(a.z * ONE * NORM_SCALE, l),
        )
    }
}

/// Normalizing commutes with negating the `x` component (`flip_x`) or the
/// `y` component (otherwise).
pub proof fn lemma_normalize_mirror(a: Vector3, b: Vector3, flip_x: bool)
    requires
        a.wf(),
        b.wf(),
        flip_x ==> b.x == -a.x && b.y == a.y && b.z == a.z,
        !flip_x ==> b.x == a.x && b.y == -a.y && b.z == a.z,
    ensures
        ({
            let (ra, rb) = (vnormalize(a), vnormalize(b));
            &&& flip_x ==> rb == v3(-ra.x, ra.y as int, ra.z as int)
            &&& !flip_x ==> rb == v3(ra.x as int, -ra.y, ra.z as int)
        }),
{
    assert(dot_wide(b, b) == dot_wide(a, a)) by (nonlinear_arith)
        requires
            flip_x ==> b.x == -a.x && b.y == a.y && b.z == a.z,
            !flip_x ==> b.x == a.x && b.y == -a.y && b.z == a.z,
            dot_wide(a, a) == a.x * a.x + a.y * a.y + a.z * a.z,
            dot_wide(b, b) == b.x * b.x + b.y * b.y + b.z * b.z,
    ;
    let s = dot_wide(a, a);
    if s != 0 {
        let l = isqrt(s * NORM_SCALE * NORM_SCALE);
        lemma_normalize_parts(a);
        assert((-a.x) * ONE * NORM_SCALE == -(a.x * ONE * NORM_SCALE)) by (nonlinear_arith);
        assert((-a.y) * ONE * NORM_SCALE == -(a.y * ONE * NORM_SCALE)) by (nonlinear_arith);
        crate::fixed::lemma_round_div_neg(a.x * ONE * NORM_SCALE, l);
        crate::fixed::lemma_round_div_neg(a.y * ONE * NORM_SCALE, l);
    }
}

/// Every component lies in `[-1, 1]`: the bound of a unit vector.
pub open spec fn unit_bounded(a: Vector3) -> bool {
    -ONE <= a.x <= ONE && -ONE <= a.y <= ONE && -ONE <= a.z <= ONE
}

/// The exact sum of squares of an in-range vector fits in 83 bits.
pub proof fn lemma_dot_wide_bound(a: Vector3, b: Vector3)
    requires
        a.wf(),
        b.wf(),
    ensures
        -0x3_0000_0000_0000_0000_0000 <= dot_wide(a, b) <= 0x3_0000_0000_0000_0000_0000,
{
    lemma_mul_bound(a.x as int, b.x as int);
    lemma_mul_bound(a.y as int, b.y as int);
    lemma_mul_bound(a.z as int, b.z as int);
}

/// A sum of squares is not negative, and bounds each square.
pub proof fn lemma_squares(a: Vector3)
    ensures
        dot_wide(a, a) >= a.x * a.x,
        dot_wide(a, a) >= a.y * a.y,
        dot_wide(a, a) >= a.z * a.z,
        a.x * a.x >= 0,
        a.y * a.y >= 0,
        a.z * a.z >= 0,
{
    assert(a.x * a.x >= 0 && a.y * a.y >= 0 && a.z * a.z >= 0) by (nonlinear_arith);
}

/// One component of a normalized vector, `c * 2^36 / l` rounded, lies in
/// `[-1, 1]` where `|c| * 2^20 <= l`.
pub proof fn lemma_unit_component(c: int, l: int)
    requires
        in_range(c),
        0 < l,
        (if c >= 0 { c } else { -c }) * NORM_SCALE <= l,
    ensures
        -ONE <= round_div(c * ONE * NORM_SCALE, l) <= ONE,
{
    let m = if c >= 0 { c } else { -c };
    assert(0 <= m * ONE * NORM_SCALE <= ONE * l) by (nonlinear_arith)
        requires
            0 <= m,
            m * NORM_SCALE <= l,
    ;
    assert(2 * (m * ONE * NORM_SCALE) + l < 2 * l * (ONE + 1)) by (nonlinear_arith)
        requires
            0 <= m * ONE * NORM_SCALE <= ONE * l,
            l > 0,
    ;
    let x = 2 * (m * ONE * NORM_SCALE) + l;
    let d = 2 * l;
    let q = x / d;
    vstd::arithmetic::div_mod::lemma_fundamental_div_mod(x, d);
    vstd::arithmetic::div_mod::lemma_mod_pos_bound(x, d);
    assert(q < ONE + 1) by (nonlinear_arith)
        requires
            d * q <= x,
            x < d * (ONE + 1),
            d > 0,
    ;
    vstd::arithmetic::div_mod::lemma_div_pos_is_pos(2 * (m * ONE * NORM_SCALE) + l, 2 * l);
    assert(c * ONE * NORM_SCALE == if c >= 0 { m * ONE * NORM_SCALE } else { -(m * ONE * NORM_SCALE) })
        by (nonlinear_arith)
        requires
            m == if c >= 0 { c } else { -c },
    ;
}

/// The length by which `vnormalize` divides is positive and bounds each
/// component, so every component of the result lies in `[-1, 1]`.
pub proof fn lemma_normalize_parts(a: Vector3)
    requires
        a.wf(),
        dot_wide(a, a) != 0,
    ensures
        ({
            let l = isqrt(dot_wide(a, a) * NORM_SCALE * NORM_SCALE);
            &&& 0 < l
            &&& is_isqrt(dot_wide(a, a) * NORM_SCALE * NORM_SCALE, l)
            &&& -ONE <= round_div(a.x * ONE * NORM_SCALE, l) <= ONE
            &&& -ONE <= round_div(a.y * ONE * NORM_SCALE, l) <= ONE
            &&& -ONE <= round_div(a.z * ONE * NORM_SCALE, l) <= ONE
        }),
{
    let s = dot_wide(a, a);
    lemma_squares(a);
    let n = s * NORM_SCALE * NORM_SCALE;
    assert(n > 0) by (nonlinear_arith)
        requires
            s > 0,
            n == s * NORM_SCALE * NORM_SCALE,
    ;
    crate::fixed::lemma_isqrt_exists(n);
    let l = isqrt(n);
    assert(l > 0) by (nonlinear_arith)
        requires
            is_isqrt(n, l),
            n > 0,
    ;
    let (x, y, z) = (a.x as int, a.y as int, a.z as int);
    let ax = if x >= 0 { x } else { -x };
    let ay = if y >= 0 { y } else { -y };
    let az = if z >= 0 { z } else { -z };
    assert(ax * ax == x * x && ay * ay == y * y && az * az == z * z) by (nonlinear_arith)
        requires
            ax == if x >= 0 { x } else { -x },
            ay == if y >= 0 { y } else { -y },
            az == if z >= 0 { z } else { -z },
    ;
    assert((ax * NORM_SCALE) * (ax * NORM_SCALE) <= n && (ay * NORM_SCALE) * (ay * NORM_SCALE) <= n
        && (az * NORM_SCALE) * (az * NORM_SCALE) <= n) by (nonlinear_arith)
        requires
            s >= x * x,
            s >= y * y,
            s >= z * z,
            ax * ax == x * x,
            ay * ay == y * y,
            az * az == z * z,
            n == s * NORM_SCALE * NORM_SCALE,
    ;
    lemma_isqrt_ge(n, ax * NORM_SCALE);
    lemma_isqrt_ge(n, ay * NORM_SCALE);
    lemma_isqrt_ge(n, az * NORM_SCALE);
    lemma_unit_component(x, l);
    lemma_unit_component(y, l);
    lemma_unit_component(z, l);
}

/// One component of a normalized vector.
fn unit_component(c: i64, l: i128) -> (r: i64)
    requires
        in_range(c as int),
        0 < l <= 0x2000_0000_0000_0000,
        -ONE <= round_div(c * ONE * NORM_SCALE, l as int) <= ONE,
    ensures
        r == round_div(c * ONE * NORM_SCALE, l as int),
        -ONE <= r <= ONE,
{
    let n = (c as i128) * (ONE as i128) * (NORM_SCALE as i128);
    proof {
        assert(-0x1_0000_0000_0000_0000_0000 <= (c as int) * ONE * NORM_SCALE <= 0x1_0000_0000_0000_0000_0000)
            by (nonlinear_arith)
            requires
                in_range(c as int),
        ;
    }
    div_round(n, l) as i64
}

/// A product of two in-range raw values fits in 81 bits.
pub proof fn lemma_mul_bound(a: int, b: int)
    requires
        in_range(a),
        in_range(b),
    ensures
        -0x1_0000_0000_0000_0000_0000 <= a * b <= 0x1_0000_0000_0000_0000_0000,
{
    assert(-0x1_0000_0000_0000_0000_0000 <= a * b <= 0x1_0000_0000_0000_0000_0000)
        by (nonlinear_arith)
        requires
            in_range(a),
            in_range(b),
    ;
}

impl Vector3 {
    /// All components are in the representable range.
    pub open spec fn wf(self) -> bool {
        in_range(self.x as int) && in_range(self.y as int) && in_range(self.z as int)
    }

    pub fn is_valid(&self) -> (r: bool)
        ensures
            r == self.wf(),
    {
        fixed::is_in_range(self.x) && fixed::is_in_range(self.y) && fixed::is_in_range(self.z)
    }

    pub fn new(x: i64, y: i64, z: i64) -> (r: Vector3)
        ensures
            r == (Vector3 { x, y, z }),
    {
        Vector3 { x, y, z }
    }

    pub fn zero() -> (r: Vector3)
        ensures
            r == v3(0, 0, 0),
            r.wf(),
    {
        Vector3 { x: 0, y: 0, z: 0 }
    }

    pub fn add(&self, o: &Vector3) -> (r: Vector3)
        requires
            self.wf(),
            o.wf(),
        ensures
            r == vadd(*self, *o),
            r.wf(),
    {
        Vector3 {
            x: clip_wide(self.x as i128 + o.x as i128),
            y: clip_wide(self.y as i128 + o.y as i128),
            z: clip_wide(self.z as i128 + o.z as i128),
        }
    }

    pub fn sub(&self, o: &Vector3) -> (r: Vector3)
        requires
            self.wf(),
            o.wf(),
        ensures
            r == vsub(*self, *o),
            r.wf(),
    {
        Vector3 {
            x: clip_wide(self.x as i128 - o.x as i128),
            y: clip_wide(self.y as i128 - o.y as i128),
            z: clip_wide(self.z as i128 - o.z as i128),
        }
    }

    pub fn neg(&self) -> (r: Vector3)
        requires
            self.wf(),
        ensures
            r == vneg(*self),
            r.wf(),
    {
        Vector3 { x: -self.x, y: -self.y, z: -self.z }
    }

    pub fn dot(&self, o: &Vector3) -> (r: i64)
        requires
            self.wf(),
            o.wf(),
        ensures
            r == vdot(*self, *o),
            in_range(r as int),
    {
        proof {
            lemma_mul_bound(self.x as int, o.x as int);
            lemma_mul_bound(self.y as int, o.y as int);
            lemma_mul_bound(self.z as int, o.z as int);
        }
        clip_wide(div_round(self.dot_wide(o), ONE as i128))
    }

    /// The exact dot product of the raw components.
    pub fn dot_wide(&self, o: &Vector3) -> (r: i128)
        requires
            self.wf(),
            o.wf(),
        ensures
            r == dot_wide(*self, *o),
            -0x3_0000_0000_0000_0000_0000 <= r <= 0x3_0000_0000_0000_0000_0000,
    {
        proof {
            lemma_dot_wide_bound(*self, *o);
            lemma_mul_bound(self.x as int, o.x as int);
            lemma_mul_bound(self.y as int, o.y as int);
            lemma_mul_bound(self.z as int, o.z as int);
        }
        (self.x as i128) * (o.x as i128) + (self.y as i128) * (o.y as i128) + (self.z as i128) * (
        o.z as i128)
    }

    pub fn cross(&self, o: &Vector3) -> (r: Vector3)
        requires
            self.wf(),
            o.wf(),
        ensures
            r == vcross(*self, *o),
            r.wf(),
    {
        proof {
            lemma_mul_bound(self.y as int, o.z as int);
            lemma_mul_bound(self.z as int, o.y as int);
            lemma_mul_bound(self.z as int, o.x as int);
            lemma_mul_bound(self.x as int, o.z as int);
            lemma_mul_bound(self.x as int, o.y as int);
            lemma_mul_bound(self.y as int, o.x as int);
        }
        let (ax, ay, az) = (self.x as i128, self.y as i128, self.z as i128);
        let (bx, by, bz) = (o.x as i128, o.y as i128, o.z as i128);
        Vector3 {
            x: clip_wide(div_round(ay * bz - az * by, ONE as i128)),
            y: clip_wide(div_round(az * bx - ax * bz, ONE as i128)),
            z: clip_wide(div_round(ax * by - ay * bx, ONE as i128)),
        }
    }

    pub fn scale(&self, s: i64) -> (r: Vector3)
        requires
            self.wf(),
            in_range(s as int),
        ensures
            r == vscale(*self, s as int),
            r.wf(),
    {
        Vector3 { x: fixed::mul(self.x, s), y: fixed::mul(self.y, s), z: fixed::mul(self.z, s) }
    }

    pub fn length(&self) -> (r: i64)
        requires
            self.wf(),
        ensures
            r == vlength(*self),
            0 <= r <= LIMIT,
    {
        let s = self.dot_wide(self);
        proof {
            lemma_squares(*self);
        }
        let q = sqrt_wide(4 * (s as u128));
        proof {
            vstd::arithmetic::div_mod::lemma_fundamental_div_mod(4 * s as int, 1);
            crate::fixed::lemma_isqrt_unique(4 * s as int, q as int);
        }
        clip_wide(((q + 1) / 2) as i128)
    }

    pub fn normalize(&self) -> (r: Vector3)
        requires
            self.wf(),
        ensures
            r == vnormalize(*self),
            r.wf(),
            unit_bounded(r),
    {
        let s = self.dot_wide(self);
        proof {
            lemma_squares(*self);
        }
        if s == 0 {
            return Vector3 { x: 0, y: 0, z: 0 };
        }
        let ns = NORM_SCALE as u128;
        proof {
            lemma_normalize_parts(*self);
            assert((s as int) * NORM_SCALE * NORM_SCALE <= 0x400_0000_0000_0000_0000_0000_0000_0000)
                by (nonlinear_arith)
                requires
                    0 <= s <= 0x3_0000_0000_0000_0000_0000,
            ;
        }
        let l = sqrt_wide((s as u128) * ns * ns);
        proof {
            crate::fixed::lemma_isqrt_unique((s as int) * NORM_SCALE * NORM_SCALE, l as int);
        }
        let l = l as i128;
        Vector3 {
            x: unit_component(self.x, l),
            y: unit_component(self.y, l),
            z: unit_component(self.z, l),
        }
    }
}

impl Vector2 {
    pub fn new(x: i64, y: i64) -> (r: Vector2)
        ensures
            r == (Vector2 { x, y }),
    {
        Vector2 { x, y }
    }
}

} // verus!
