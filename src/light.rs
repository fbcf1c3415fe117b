//! Point and directional light sources.
use vstd::prelude::*;

use crate::color::Color;
use crate::fixed::{clip, clip_wide, div_floor, floor_div, in_range, LIMIT, ONE, PI};
use crate::vector::{dot_wide, v3, vlength, vneg, vnormalize, vsub, Vector3};

verus! {

/// A light at a position, whose intensity falls off with the square of the
/// distance.
#[derive(Debug, Clone, Copy)]
pub struct PointLight {
    pub position: Vector3,
    pub color: Color,
    pub intensity: i64,
}

/// A light infinitely far away, shining along `direction` with the same
/// intensity everywhere.
#[derive(Debug, Clone, Copy)]
pub struct DirectionalLight {
    pub direction: Vector3,
    pub color: Color,
    pub intensity: i64,
}

#[derive(Debug, Clone, Copy)]
pub enum Light {
    Point(PointLight),
    Directional(DirectionalLight),
}

/// The intensity of a point light of raw intensity `i` at the exact squared
/// distance `d2` (at scale `ONE * ONE`): `i / (4 pi d2)`, rounded down;
/// "infinite" at distance zero.
pub open spec fn point_falloff(i: int, d2: int) -> int {
    if d2 <= 0 {
        LIMIT as int
    } else {
        clip(floor_div(i * ONE * ONE * ONE, 4 * PI * d2))
    }
}

impl Light {
    /// Positions, directions and intensities are in range.
    pub open spec fn wf(self) -> bool {
        match self {
            Light::Point(l) => l.position.wf() && in_range(l.intensity as int),
            Light::Directional(l) => l.direction.wf() && in_range(l.intensity as int),
        }
    }

    pub open spec fn color_spec(self) -> Color {
        match self {
            Light::Point(l) => l.color,
            Light::Directional(l) => l.color,
        }
    }

    pub open spec fn intensity_spec(self, p: Vector3) -> int {
        match self {
            Light::Point(l) => {
                let v = vsub(l.position, p);
                point_falloff(l.intensity as int, dot_wide(v, v))
            },
            Light::Directional(l) => l.intensity as int,
        }
    }

    pub open spec fn direction_spec(self, p: Vector3) -> Vector3 {
        match self {
            Light::Point(l) => vnormalize(vsub(l.position, p)),
            Light::Directional(l) => vnormalize(vneg(l.direction)),
        }
    }

    pub open spec fn distance_spec(self, p: Vector3) -> int {
        match self {
            Light::Point(l) => vlength(vsub(l.position, p)),
            Light::Directional(_) => LIMIT as int,
        }
    }

    pub fn is_valid(&self) -> (r: bool)
        ensures
            r == self.wf(),
    {
        match self {
            Light::Point(l) => l.position.is_valid() && crate::fixed::is_in_range(l.intensity),
            Light::Directional(l) => l.direction.is_valid() && crate::fixed::is_in_range(l.intensity),
        }
    }

    pub fn color(&self) -> (r: Color)
        ensures
            r == self.color_spec(),
    {
        match self {
            Light::Point(l) => l.color,
            Light::Directional(l) => l.color,
        }
    }

    /// The intensity received at `p`.
    pub fn intensity(&self, p: Vector3) -> (r: i64)
        requires
            self.wf(),
            p.wf(),
        ensures
            r == self.intensity_spec(p),
            in_range(r as int),
    {
        match self {
            Light::Point(l) => {
                let v = l.position.sub(&p);
                let d2 = v.dot_wide(&v);
                if d2 <= 0 {
                    LIMIT
                } else {
                    proof {
                        assert(-0x100_0000_0000_0000_0000_0000_0000 <= (l.intensity as int) * ONE
                            * ONE * ONE <= 0x100_0000_0000_0000_0000_0000_0000)
                            by (nonlinear_arith)
                            requires
                                in_range(l.intensity as int),
                        ;
                        assert(0 < 4 * PI * (d2 as int) <= 0x100_0000_0000_0000_0000_0000_0000)
                            by (nonlinear_arith)
                            requires
                                0 < d2 <= 0x3_0000_0000_0000_0000_0000,
                        ;
                    }
                    let n = (l.intensity as i128) * (ONE as i128) * (ONE as i128) * (ONE as i128);
                    let d = 4 * (PI as i128) * d2;
                    clip_wide(div_floor(n, d))
                }
            },
            Light::Directional(l) => l.intensity,
        }
    }

    /// The unit vector from `p` toward the light.
    pub fn direction(&self, p: Vector3) -> (r: Vector3)
        requires
            self.wf(),
            p.wf(),
        ensures
            r == self.direction_spec(p),
            r.wf(),
    {
        match self {
            Light::Point(l) => l.position.sub(&p).normalize(),
            Light::Directional(l) => l.direction.neg().normalize(),
        }
    }

    /// The distance from `p` to the light; `LIMIT`, standing for infinity,
    /// for a directional light.
    pub fn distance(&self, p: Vector3) -> (r: i64)
        requires
            self.wf(),
            p.wf(),
        ensures
            r == self.distance_spec(p),
    {
        match self {
            Light::Point(l) => l.position.sub(&p).length(),
            Light::Directional(_) => LIMIT,
        }
    }
}

/// Inverse-square falloff: where `far` lies twice as far from a point light
/// as `near`, on the same ray from the light, the intensity at `far` is a
/// quarter of the intensity at `near`, up to the truncation of the
/// fixed-point result. This needs a non-negative light intensity, `near`
/// apart from the light, and an intensity at `near` that does not saturate.
pub proof fn lemma_inverse_square(l: PointLight, near: Vector3, far: Vector3)
    requires
        l.intensity >= 0,
        ({
            let o = vsub(l.position, near);
            &&& o != v3(0, 0, 0)
            &&& vsub(l.position, far) == v3(2 * o.x, 2 * o.y, 2 * o.z)
        }),
        Light::Point(l).intensity_spec(near) < LIMIT,
    ensures
        Light::Point(l).intensity_spec(far) == Light::Point(l).intensity_spec(near) / 4,
{
    let o = vsub(l.position, near);
    let f = vsub(l.position, far);
    let d2 = dot_wide(o, o);
    assert(dot_wide(f, f) == 4 * d2) by (nonlinear_arith)
        requires
            dot_wide(f, f) == f.x * f.x + f.y * f.y + f.z * f.z,
            d2 == o.x * o.x + o.y * o.y + o.z * o.z,
            f.x == 2 * o.x,
            f.y == 2 * o.y,
            f.z == 2 * o.z,
    ;
    assert(d2 > 0) by (nonlinear_arith)
        requires
            d2 == o.x * o.x + o.y * o.y + o.z * o.z,
            o.x != 0 || o.y != 0 || o.z != 0,
    ;
    let n = (l.intensity as int) * ONE * ONE * ONE;
    let dn = 4 * PI * d2;
    assert(n >= 0) by (nonlinear_arith)
        requires
            l.intensity >= 0,
            n == (l.intensity as int) * ONE * ONE * ONE,
    ;
    assert(4 * PI * (4 * d2) == dn * 4 && dn > 0) by (nonlinear_arith)
        requires
            dn == 4 * PI * d2,
            d2 > 0,
    ;
    vstd::arithmetic::div_mod::lemma_div_denominator(n, dn, 4);
    vstd::arithmetic::div_mod::lemma_div_pos_is_pos(n, dn);
    vstd::arithmetic::div_mod::lemma_div_is_ordered_by_denominator(n, dn, dn * 4);
}

/// A directional light's intensity and direction are the same at every point.
pub proof fn lemma_directional_invariant(l: DirectionalLight, p: Vector3, q: Vector3)
    ensures
        Light::Directional(l).intensity_spec(p) == Light::Directional(l).intensity_spec(q),
        Light::Directional(l).direction_spec(p) == Light::Directional(l).direction_spec(q),
{
}

} // verus!
