//! Spheres and planes, and their intersection with rays.
//!
//! Every primitive follows one policy for hits: a hit counts only at a
//! distance greater than `HIT_EPSILON` along the ray. So a sphere wholly
//! behind a ray is missed, a ray starting inside a sphere meets its far side,
//! and a reflected ray, which starts exactly at the point it leaves, does not
//! meet that surface again there.
use vstd::prelude::*;

use crate::fixed::{
    clip, clip_wide, div_ratio, div_round, fx_div, fx_mul, fx_sqrt, in_range, isqrt, ratio, round_div,
    sqrt_wide, LIMIT, ONE,
};
use crate::material::Material;
use crate::render::Ray;
use crate::vector::{dot_wide, v3, vcross, vdot, vneg, vnormalize, vsub, Vector2, Vector3};

verus! {

/// Hits at this raw distance or nearer are ignored, so that a ray leaving a
/// surface does not meet that surface again at its own origin.
pub const HIT_EPSILON: i64 = 64;

/// A ray whose direction has a dot product with a plane's normal of
/// magnitude under `1e-6` is parallel to the plane; this is that bound on the
/// exact product, at scale `ONE * ONE` (`1e-6 * 2^32`, rounded).
pub const PARALLEL_EPSILON: i128 = 4295;

/// An infinite plane through `origin` with unit normal `normal`.
#[derive(Debug, Clone, Copy, PartialEq, Eq, Structural)]
pub struct Plane {
    pub normal: Vector3,
    pub origin: Vector3,
}

/// A sphere of positive radius.
#[derive(Debug, Clone, Copy, PartialEq, Eq, Structural)]
pub struct Sphere {
    pub center: Vector3,
    pub radius: i64,
}

#[derive(Debug, Clone, Copy, PartialEq, Eq, Structural)]
pub enum Mesh {
    Sphere(Sphere),
    Plane(Plane),
}

/// The nearest root of a ray/sphere equation beyond `HIT_EPSILON`.
pub open spec fn nearest_root(t0: int, t1: int) -> Option<int> {
    if t0 > HIT_EPSILON {
        Some(t0)
    } else if t1 > HIT_EPSILON {
        Some(t1)
    } else {
        None
    }
}

/// The distance along `ray` to the nearer hit on `s` in front of the ray,
/// if any: with `line = center - origin`, `adj = line . dir` and
/// `d2 = line . line - adj^2`, the roots are `adj -+ sqrt(r^2 - d2)`. The
/// products are exact (at scale `ONE^2`, squares at `ONE^4`), and each root
/// is rounded to the nearest raw unit.
pub open spec fn sphere_hit(s: Sphere, ray: Ray) -> Option<int> {
    let line = vsub(s.center, ray.origin);
    let adj = dot_wide(line, ray.direction);
    let d2 = dot_wide(line, line) * (ONE * ONE) - adj * adj;
    let r2 = s.radius * s.radius * (ONE * ONE);
    if d2 > r2 {
        None
    } else {
        let th = isqrt(r2 - d2);
        nearest_root(clip(round_div(adj - th, ONE as int)), clip(round_div(adj + th, ONE as int)))
    }
}

/// The distance along `ray` to `p`, if the ray is not parallel to it and
/// meets it in front of its origin: `(origin - ray.origin) . n / (n . dir)`
/// from exact products, rounded to the nearest raw unit.
pub open spec fn plane_hit(p: Plane, ray: Ray) -> Option<int> {
    let denom = dot_wide(p.normal, ray.direction);
    if -PARALLEL_EPSILON < denom < PARALLEL_EPSILON {
        None
    } else {
        let t = clip(ratio(dot_wide(vsub(p.origin, ray.origin), p.normal) * ONE, denom));
        if t > HIT_EPSILON {
            Some(t)
        } else {
            None
        }
    }
}

/// The first axis of the plane's texture space.
pub open spec fn plane_x_axis(p: Plane) -> Vector3 {
    if p.normal.z != 0 {
        vcross(p.normal, v3(0, 0, ONE as int))
    } else {
        vcross(p.normal, v3(ONE as int, ONE as int, 0))
    }
}

pub open spec fn plane_uv(p: Plane, hit: Vector3) -> Vector2 {
    let xa = plane_x_axis(p);
    let ya = vcross(p.normal, xa);
    let hv = vsub(hit, p.origin);
    Vector2 { x: vdot(hv, xa) as i64, y: vdot(hv, ya) as i64 }
}

/// `atan(t) / pi` for a fixed-point `t` in `[0, 1]`, in fixed point, by the
/// approximation `atan(t) ~ pi/4 * t + 0.273 * t * (1 - t)`.
pub open spec fn atan_unit(t: int) -> int {
    t / 4 + (ATAN_K * t * (ONE - t)) / (ONE * ONE)
}

/// `atan2(y, x) / pi` in fixed point, in `[-1, 1]`; zero at the origin.
pub open spec fn atan2_pi(y: int, x: int) -> int {
    let ax = if x < 0 { -x } else { x };
    let ay = if y < 0 { -y } else { y };
    let a = if ax == 0 && ay == 0 {
        0
    } else if ay <= ax {
        atan_unit((ay * ONE) / ax)
    } else {
        ONE / 2 - atan_unit((ax * ONE) / ay)
    };
    let b = if x < 0 { ONE - a } else { a };
    if y < 0 { -b } else { b }
}

/// Bounds a fixed-point value to `[-1, 1]`.
pub open spec fn unit_clamp(w: int) -> int {
    if w > ONE { ONE as int } else if w < -ONE { -ONE } else { w }
}

/// Spherical texture coordinates: `u = (1 + phi / pi) / 2` with
/// `phi = atan2(z, x)`, and `v = theta / pi` with `theta = acos(y / r)`,
/// taken as `atan2(sqrt(1 - w^2), w)` for `w = y / r` bounded to `[-1, 1]`.
pub open spec fn sphere_uv(s: Sphere, hit: Vector3) -> Vector2 {
    let hv = vsub(hit, s.center);
    let phi = atan2_pi(hv.z as int, hv.x as int);
    let w = unit_clamp(fx_div(hv.y as int, s.radius as int));
    let theta = atan2_pi(fx_sqrt(ONE - fx_mul(w, w)), w);
    Vector2 { x: ((ONE + phi) / 2) as i64, y: theta as i64 }
}

/// `0.273 / pi` in fixed point.
pub const ATAN_K: i64 = 5695;

/// `atan(t) / pi` for `t` in `[0, 1]`.
fn atan_unit_exec(t: i64) -> (r: i64)
    requires
        0 <= t <= ONE,
    ensures
        r == atan_unit(t as int),
        0 <= r <= ONE / 4 + ATAN_K,
{
    assert(0 <= ATAN_K * (t as int) <= ATAN_K * ONE) by (nonlinear_arith)
        requires
            0 <= t <= ONE,
    ;
    assert(0 <= ATAN_K * (t as int) * (ONE - t) <= ATAN_K * ONE * ONE) by (nonlinear_arith)
        requires
            0 <= t <= ONE,
    ;
    let p = (ATAN_K as u64) * (t as u64) * ((ONE - t) as u64);
    proof {
        vstd::arithmetic::div_mod::lemma_div_is_ordered(p as int, ATAN_K * ONE * ONE, ONE * ONE);
        vstd::arithmetic::div_mod::lemma_div_multiples_vanish(ATAN_K as int, ONE * ONE);
        assert(ATAN_K * ONE * ONE == (ONE * ONE) * ATAN_K);
    }
    let q = p / 4294967296u64;
    (t as u64 / 4 + q) as i64
}

/// `atan2(y, x) / pi`.
fn atan2_pi_exec(y: i64, x: i64) -> (r: i64)
    requires
        in_range(y as int),
        in_range(x as int),
    ensures
        r == atan2_pi(y as int, x as int),
        -ONE <= r <= ONE,
        y >= 0 ==> r >= 0,
{
    let ax = if x < 0 { -x } else { x };
    let ay = if y < 0 { -y } else { y };
    let a = if ax == 0 && ay == 0 {
        0
    } else if ay <= ax {
        proof {
            assert((ay as int) * ONE <= (ax as int) * ONE) by (nonlinear_arith)
                requires
                    ay <= ax,
            ;
            vstd::arithmetic::div_mod::lemma_div_is_ordered((ay as int) * ONE, (ax as int) * ONE, ax as int);
            vstd::arithmetic::div_mod::lemma_div_multiples_vanish(ONE as int, ax as int);
            assert((ax as int) * ONE == ax * (ONE as int));
        }
        atan_unit_exec((((ay as u64) * (ONE as u64)) / (ax as u64)) as i64)
    } else {
        proof {
            assert((ax as int) * ONE <= (ay as int) * ONE) by (nonlinear_arith)
                requires
                    ax <= ay,
            ;
            vstd::arithmetic::div_mod::lemma_div_is_ordered((ax as int) * ONE, (ay as int) * ONE, ay as int);
            vstd::arithmetic::div_mod::lemma_div_multiples_vanish(ONE as int, ay as int);
            assert((ay as int) * ONE == ay * (ONE as int));
        }
        ONE / 2 - atan_unit_exec((((ax as u64) * (ONE as u64)) / (ay as u64)) as i64)
    };
    let b = if x < 0 { ONE - a } else { a };
    if y < 0 { -b } else { b }
}

impl Sphere {
    /// The center is in range and the radius positive and in range.
    pub open spec fn wf(self) -> bool {
        self.center.wf() && 0 < self.radius <= LIMIT
    }

    pub fn intersect_distance(&self, ray: &Ray) -> (r: Option<i64>)
        requires
            self.wf(),
            ray.wf(),
        ensures
            r matches Some(t) ==> sphere_hit(*self, *ray) == Some(t as int) && in_range(t as int),
            r is None ==> sphere_hit(*self, *ray) is None,
    {
        let line = self.center.sub(&ray.origin);
        proof {
            lemma_unit_product(line.x as int, ray.direction.x as int);
            lemma_unit_product(line.y as int, ray.direction.y as int);
            lemma_unit_product(line.z as int, ray.direction.z as int);
        }
        let adj = line.dot_wide(&ray.direction);
        let ll = line.dot_wide(&line);
        proof {
            assert(0 <= (adj as int) * (adj as int) <= 0x9_0000_0000_0000_0000_0000_0000_0000)
                by (nonlinear_arith)
                requires
                    -0x3_0000_0000_0000_00 <= adj <= 0x3_0000_0000_0000_00,
            ;
            crate::vector::lemma_squares(line);
            assert(0 <= (self.radius as int) * (self.radius as int) <= 0x1_0000_0000_0000_0000_0000)
                by (nonlinear_arith)
                requires
                    0 < self.radius <= LIMIT,
            ;
        }
        let one2: i128 = 4294967296;
        assert(one2 == ONE * ONE);
        let d2 = ll * one2 - adj * adj;
        let r2 = (self.radius as i128) * (self.radius as i128) * one2;
        if d2 > r2 {
            return None;
        }
        let th = sqrt_wide((r2 - d2) as u128);
        proof {
            crate::fixed::lemma_isqrt_unique((r2 - d2) as int, th as int);
        }
        let th = th as i128;
        let t0 = clip_wide(div_round(adj - th, ONE as i128));
        let t1 = clip_wide(div_round(adj + th, ONE as i128));
        if t0 > HIT_EPSILON {
            Some(t0)
        } else if t1 > HIT_EPSILON {
            Some(t1)
        } else {
            None
        }
    }

    /// The outward unit normal at a point of the sphere.
    pub fn surface_normal(&self, hit: Vector3) -> (r: Vector3)
        requires
            self.wf(),
            hit.wf(),
        ensures
            r == vnormalize(vsub(hit, self.center)),
            r.wf(),
    {
        hit.sub(&self.center).normalize()
    }

    /// Spherical texture coordinates of a point of the sphere, each in
    /// `[0, 1]`.
    pub fn texture_coords(&self, hit: Vector3) -> (r: Vector2)
        requires
            self.wf(),
            hit.wf(),
        ensures
            r == sphere_uv(*self, hit),
            0 <= r.x <= ONE,
            0 <= r.y <= ONE,
    {
        let hv = hit.sub(&self.center);
        let phi = atan2_pi_exec(hv.z, hv.x);
        let q = crate::fixed::div(hv.y, self.radius);
        let w = if q > ONE { ONE } else if q < -ONE { -ONE } else { q };
        let ww = crate::fixed::mul(w, w);
        proof {
            assert(0 <= (w as int) * (w as int) <= (ONE as int) * ONE) by (nonlinear_arith)
                requires
                    -ONE <= w <= ONE,
            ;
            vstd::arithmetic::div_mod::lemma_div_is_ordered(0, (w as int) * (w as int), ONE as int);
            vstd::arithmetic::div_mod::lemma_div_is_ordered((w as int) * (w as int), (ONE as int) * ONE, ONE as int);
            vstd::arithmetic::div_mod::lemma_div_multiples_vanish(ONE as int, ONE as int);
        }
        let root = crate::fixed::sqrt(ONE - ww);
        let theta = atan2_pi_exec(root, w);
        proof {
            assert(theta >= 0);
        }
        Vector2::new((ONE + phi) / 2, theta)
    }
}

impl Plane {
    pub open spec fn wf(self) -> bool {
        self.normal.wf() && self.origin.wf()
    }

    pub fn intersect_distance(&self, ray: &Ray) -> (r: Option<i64>)
        requires
            self.wf(),
            ray.wf(),
        ensures
            r matches Some(t) ==> plane_hit(*self, *ray) == Some(t as int) && in_range(t as int),
            r is None ==> plane_hit(*self, *ray) is None,
    {
        let denom = self.normal.dot_wide(&ray.direction);
        if -PARALLEL_EPSILON < denom && denom < PARALLEL_EPSILON {
            return None;
        }
        let num = self.origin.sub(&ray.origin).dot_wide(&self.normal);
        let t = clip_wide(div_ratio(num * (ONE as i128), denom));
        if t > HIT_EPSILON {
            Some(t)
        } else {
            None
        }
    }

    /// The plane's normal turned toward the side that the camera sees.
    pub fn surface_normal(&self, hit: Vector3) -> (r: Vector3)
        requires
            self.wf(),
        ensures
            r == vneg(self.normal),
            r.wf(),
    {
        self.normal.neg()
    }

    /// The coordinates of `hit` along two axes lying in the plane.
    pub fn texture_coords(&self, hit: Vector3) -> (r: Vector2)
        requires
            self.wf(),
            hit.wf(),
        ensures
            r == plane_uv(*self, hit),
            in_range(r.x as int),
            in_range(r.y as int),
    {
        let xa = if self.normal.z != 0 {
            self.normal.cross(&Vector3::new(0, 0, ONE))
        } else {
            self.normal.cross(&Vector3::new(ONE, ONE, 0))
        };
        let ya = self.normal.cross(&xa);
        let hv = hit.sub(&self.origin);
        Vector2::new(hv.dot(&xa), hv.dot(&ya))
    }
}

impl Mesh {
    pub open spec fn wf(self) -> bool {
        match self {
            Mesh::Sphere(s) => s.wf(),
            Mesh::Plane(p) => p.wf(),
        }
    }

    pub fn is_valid(&self) -> (r: bool)
        ensures
            r == self.wf(),
    {
        match self {
            Mesh::Sphere(s) => s.center.is_valid() && 0 < s.radius && s.radius <= LIMIT,
            Mesh::Plane(p) => p.normal.is_valid() && p.origin.is_valid(),
        }
    }

    pub open spec fn hit_spec(self, ray: Ray) -> Option<int> {
        match self {
            Mesh::Sphere(s) => sphere_hit(s, ray),
            Mesh::Plane(p) => plane_hit(p, ray),
        }
    }

    pub open spec fn normal_spec(self, hit: Vector3) -> Vector3 {
        match self {
            Mesh::Sphere(s) => vnormalize(vsub(hit, s.center)),
            Mesh::Plane(p) => vneg(p.normal),
        }
    }

    pub open spec fn uv_spec(self, hit: Vector3) -> Vector2 {
        match self {
            Mesh::Sphere(s) => sphere_uv(s, hit),
            Mesh::Plane(p) => plane_uv(p, hit),
        }
    }

    pub fn intersect_distance(&self, ray: &Ray) -> (r: Option<i64>)
        requires
            self.wf(),
            ray.wf(),
        ensures
            r matches Some(t) ==> self.hit_spec(*ray) == Some(t as int) && in_range(t as int),
            r is None ==> self.hit_spec(*ray) is None,
    {
        match self {
            Mesh::Sphere(s) => s.intersect_distance(ray),
            Mesh::Plane(p) => p.intersect_distance(ray),
        }
    }

    pub fn surface_normal(&self, hit: Vector3) -> (r: Vector3)
        requires
            self.wf(),
            hit.wf(),
        ensures
            r == self.normal_spec(hit),
            r.wf(),
    {
        match self {
            Mesh::Sphere(s) => s.surface_normal(hit),
            Mesh::Plane(p) => p.surface_normal(hit),
        }
    }

    pub fn texture_coords(&self, hit: Vector3) -> (r: Vector2)
        requires
            self.wf(),
            hit.wf(),
        ensures
            r == self.uv_spec(hit),
            in_range(r.x as int),
            in_range(r.y as int),
    {
        match self {
            Mesh::Sphere(s) => s.texture_coords(hit),
            Mesh::Plane(p) => p.texture_coords(hit),
        }
    }
}

/// A shape with its appearance.
#[derive(Debug)]
pub struct Object {
    pub material: Material,
    pub mesh: Mesh,
}

/// Where a ray meets an object: the distance along the ray, and the object.
#[derive(Debug)]
pub struct Intersection<'a> {
    pub distance: i64,
    pub object: &'a Object,
}

impl Object {
    pub open spec fn wf(&self) -> bool {
        self.material.wf() && self.mesh.wf()
    }

    pub fn is_valid(&self) -> (r: bool)
        ensures
            r == self.wf(),
    {
        self.material.is_valid() && self.mesh.is_valid()
    }

    pub fn new(material: Material, mesh: Mesh) -> (r: Object)
        ensures
            r == (Object { material, mesh }),
    {
        Object { material, mesh }
    }

    /// The nearest hit of `ray` on this object, if any.
    pub fn intersect<'a>(&'a self, ray: &Ray) -> (r: Option<Intersection<'a>>)
        requires
            self.wf(),
            ray.wf(),
        ensures
            r matches Some(i) ==> self.mesh.hit_spec(*ray) == Some(i.distance as int) && in_range(
                i.distance as int,
            ) && *i.object == *self,
            r is None ==> self.mesh.hit_spec(*ray) is None,
    {
        match self.mesh.intersect_distance(ray) {
            Some(distance) => Some(Intersection { distance, object: self }),
            None => None,
        }
    }
}

/// A ray that is parallel to a plane never meets it, wherever it starts.
pub proof fn lemma_plane_parallel_misses(p: Plane, ray: Ray)
    requires
        dot_wide(p.normal, ray.direction) == 0,
    ensures
        plane_hit(p, ray) is None,
{
}

/// Where a ray meets a plane does not depend on which way its normal points.
pub proof fn lemma_plane_hit_normal_sign(p: Plane, ray: Ray)
    requires
        p.normal.wf(),
    ensures
        plane_hit(Plane { normal: vneg(p.normal), origin: p.origin }, ray) == plane_hit(p, ray),
{
    let q = Plane { normal: vneg(p.normal), origin: p.origin };
    let o = vsub(p.origin, ray.origin);
    let (n, d) = (p.normal, ray.direction);
    assert(dot_wide(q.normal, d) == -dot_wide(n, d)) by (nonlinear_arith)
        requires
            q.normal.x == -n.x,
            q.normal.y == -n.y,
            q.normal.z == -n.z,
            dot_wide(q.normal, d) == q.normal.x * d.x + q.normal.y * d.y + q.normal.z * d.z,
            dot_wide(n, d) == n.x * d.x + n.y * d.y + n.z * d.z,
    ;
    assert(dot_wide(o, q.normal) * ONE == -(dot_wide(o, n) * ONE)) by (nonlinear_arith)
        requires
            q.normal.x == -n.x,
            q.normal.y == -n.y,
            q.normal.z == -n.z,
            dot_wide(o, q.normal) == o.x * q.normal.x + o.y * q.normal.y + o.z * q.normal.z,
            dot_wide(o, n) == o.x * n.x + o.y * n.y + o.z * n.z,
    ;
}

/// A raw value times a unit-bounded component fits in 57 bits.
pub proof fn lemma_unit_product(a: int, u: int)
    requires
        in_range(a),
        -ONE <= u <= ONE,
    ensures
        -0x1_0000_0000_0000_00 <= a * u <= 0x1_0000_0000_0000_00,
{
    assert(-0x1_0000_0000_0000_00 <= a * u <= 0x1_0000_0000_0000_00) by (nonlinear_arith)
        requires
            in_range(a),
            -ONE <= u <= ONE,
    ;
}

} // verus!
