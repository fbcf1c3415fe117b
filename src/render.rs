//! The camera, the recursive tracer and the frame loop.
use vstd::prelude::*;

use crate::color::{color_add, color_scale, rgb, sat8, Color};
use crate::fixed::{clip, clip_wide, div_floor, div_round, fx_div, fx_mul, in_range, round_div, LIMIT, ONE, PI};
use crate::light::Light;
use crate::material::SurfaceKind;
use crate::object::Object;
use crate::vector::{unit_bounded, v3, vadd, vdot, vnormalize, vscale, vsub, Vector3};

verus! {

/// A half-line from `origin` along the unit vector `direction`; each
/// component of the direction lies in `[-1, 1]`.
#[derive(Debug, Clone, Copy, PartialEq, Eq, Structural)]
pub struct Ray {
    pub origin: Vector3,
    pub direction: Vector3,
}

impl Ray {
    pub open spec fn wf(self) -> bool {
        self.origin.wf() && self.direction.wf() && unit_bounded(self.direction)
    }
}

/// The level of every channel of the background, the color of a ray that
/// meets nothing.
pub const BACKGROUND_LEVEL: u8 = 40;

pub open spec fn background() -> Color {
    Color { red: BACKGROUND_LEVEL, green: BACKGROUND_LEVEL, blue: BACKGROUND_LEVEL }
}

/// A scene, seen by a camera at the origin looking down `-z`.
#[derive(Debug)]
pub struct Scene {
    pub width: u32,
    pub height: u32,
    /// `tan(fov / 2)` in fixed point, for the horizontal field of view `fov`
    /// of a landscape frame (the vertical one of a portrait frame).
    pub fov_scale: i64,
    pub max_recursion_depth: u32,
    pub lights: Vec<Light>,
    pub objects: Vec<Object>,
}

/// A rendered frame: `width * height` colors, row after row.
#[derive(Debug)]
pub struct Raster {
    pub width: u32,
    pub height: u32,
    pub pixels: Vec<Color>,
}

/// The view-plane coordinate of the center of pixel `i` of `n` along an
/// axis, for a frame whose shorter side has `m` pixels and a field of view
/// scaled by `fov` (`tan(fov / 2)`): `(2 (i + 1/2) / n - 1) * (n / m) * fov`,
/// that is `(2 i + 1 - n) * fov / m`, rounded to the nearest raw unit.
/// Centered on the frame, it is exactly symmetric: pixel `n - 1 - i` gets
/// the negated value.
pub open spec fn sensor(i: int, n: int, m: int, fov: int) -> int {
    clip(round_div((2 * i + 1 - n) * fov, m))
}

/// One light's contribution to a channel: the two channels as fractions of
/// 255, times the diffuse factor, back in `0..=255`, truncated.
pub open spec fn light_term(surface: int, light: int, factor: int) -> int {
    (surface * light * factor) / (255 * ONE)
}

/// The mirror image of `d` about the plane with unit normal `n`,
/// `d - 2 (d . n) n`, normalized again so that the rounding of the
/// fixed-point steps does not build up along a path of reflections.
pub open spec fn reflect(d: Vector3, n: Vector3) -> Vector3 {
    vnormalize(vsub(d, vscale(n, clip(2 * vdot(d, n)))))
}

impl Scene {
    pub open spec fn wf(&self) -> bool {
        &&& self.width > 0
        &&& self.height > 0
        &&& in_range(self.fov_scale as int)
        &&& forall|i: int| 0 <= i < self.lights@.len() ==> #[trigger] self.lights@[i].wf()
        &&& forall|i: int| 0 <= i < self.objects@.len() ==> #[trigger] self.objects@[i].wf()
    }

    /// The primary ray through the center of pixel `(x, y)`: from the origin
    /// along the normalized `(sx, sy, -1)`, where `sx` and `sy` are the
    /// pixel-center coordinates mapped to `[-1, 1]` (with `y` flipped),
    /// stretched along the longer side for square pixels and scaled by
    /// `tan(fov / 2)`.
    pub open spec fn prime_ray_spec(&self, x: int, y: int) -> Ray {
        let w = self.width as int;
        let h = self.height as int;
        let m = if w > h { h } else { w };
        let sx = sensor(x, w, m, self.fov_scale as int);
        let sy = -sensor(y, h, m, self.fov_scale as int);
        Ray { origin: v3(0, 0, 0), direction: vnormalize(v3(sx, sy, -ONE)) }
    }

    /// The nearest hit among the first `n` objects, as an index and a
    /// distance; the first object wins a tie.
    pub open spec fn nearest_upto(&self, ray: Ray, n: nat) -> Option<(int, int)>
        decreases n,
    {
        if n == 0 {
            None
        } else {
            let prev = self.nearest_upto(ray, (n - 1) as nat);
            match self.objects@[n - 1].mesh.hit_spec(ray) {
                None => prev,
                Some(t) => match prev {
                    Some(best) if best.1 <= t => prev,
                    _ => Some(((n - 1) as int, t)),
                },
            }
        }
    }

    pub open spec fn nearest_spec(&self, ray: Ray) -> Option<(int, int)> {
        self.nearest_upto(ray, self.objects@.len())
    }

    /// `ndotl * intensity * albedo / pi` for one light.
    pub open spec fn diffuse_factor(&self, l: Light, hit: Vector3, normal: Vector3, albedo: int) -> int {
        let nl = vdot(normal, l.direction_spec(hit));
        let ndotl = if nl > 0 { nl } else { 0 };
        fx_mul(fx_mul(ndotl, l.intensity_spec(hit)), fx_div(albedo, PI as int))
    }

    /// The channel sums of the contributions of the first `n` lights.
    pub open spec fn lit_upto(
        &self,
        n: nat,
        hit: Vector3,
        normal: Vector3,
        albedo: int,
        s: Color,
    ) -> (int, int, int)
        decreases n,
    {
        if n == 0 {
            (0, 0, 0)
        } else {
            let prev = self.lit_upto((n - 1) as nat, hit, normal, albedo, s);
            let l = self.lights@[n - 1];
            let f = self.diffuse_factor(l, hit, normal, albedo);
            let c = l.color_spec();
            (
                prev.0 + light_term(s.red as int, c.red as int, f),
                prev.1 + light_term(s.green as int, c.green as int, f),
                prev.2 + light_term(s.blue as int, c.blue as int, f),
            )
        }
    }

    /// The direct light that `ray` sees where it meets object `i` at
    /// distance `t`: the sum over all lights, saturated into a color.
    pub open spec fn direct_spec(&self, ray: Ray, i: int, t: int) -> Color {
        let obj = self.objects@[i];
        let hit = vadd(ray.origin, vscale(ray.direction, t));
        let normal = obj.mesh.normal_spec(hit);
        let s = obj.material.color_spec(obj.mesh.uv_spec(hit));
        let sum = self.lit_upto(self.lights@.len(), hit, normal, obj.material.albedo as int, s);
        rgb(sum.0, sum.1, sum.2)
    }

    /// `r` holds this scene's frame, one color per pixel, row after row.
    pub open spec fn renders(&self, r: &Raster) -> bool {
        &&& r.width == self.width
        &&& r.height == self.height
        &&& r.pixels@.len() == self.width * self.height
        &&& forall|k: int|
            0 <= k < r.pixels@.len() ==> #[trigger] r.pixels@[k] == self.pixel_spec(
                k % (self.width as int),
                k / (self.width as int),
            )
    }

    /// The color that `ray` sees at recursion depth `depth`.
    pub open spec fn trace_spec(&self, ray: Ray, depth: nat) -> Color
        decreases self.max_recursion_depth - depth,
    {
        match self.nearest_spec(ray) {
            None => background(),
            Some((i, t)) => {
                let obj = self.objects@[i];
                let hit = vadd(ray.origin, vscale(ray.direction, t));
                let normal = obj.mesh.normal_spec(hit);
                let lit = self.direct_spec(ray, i, t);
                match obj.material.surface_kind {
                    SurfaceKind::Reflective { reflectivity } => if depth < self.max_recursion_depth {
                        let reflected = self.trace_spec(
                            Ray { origin: hit, direction: reflect(ray.direction, normal) },
                            depth + 1,
                        );
                        color_add(
                            color_scale(lit, clip(ONE - reflectivity)),
                            color_scale(reflected, reflectivity as int),
                        )
                    } else {
                        lit
                    },
                    _ => lit,
                }
            },
        }
    }

    /// The color of pixel `(x, y)`.
    pub open spec fn pixel_spec(&self, x: int, y: int) -> Color {
        self.trace_spec(self.prime_ray_spec(x, y), 0)
    }

    /// Whether the scene meets the conditions under which it can be traced:
    /// a non-empty frame, and every light and object in range (spheres of
    /// positive radius, textures with at least one pixel).
    pub fn is_valid(&self) -> (r: bool)
        ensures
            r == self.wf(),
    {
        if self.width == 0 || self.height == 0 || !crate::fixed::is_in_range(self.fov_scale) {
            return false;
        }
        let mut i: usize = 0;
        while i < self.lights.len()
            invariant
                i <= self.lights@.len(),
                forall|j: int| 0 <= j < i ==> #[trigger] self.lights@[j].wf(),
            decreases self.lights@.len() - i,
        {
            if !self.lights[i].is_valid() {
                return false;
            }
            i += 1;
        }
        let mut k: usize = 0;
        while k < self.objects.len()
            invariant
                k <= self.objects@.len(),
                forall|j: int| 0 <= j < k ==> #[trigger] self.objects@[j].wf(),
            decreases self.objects@.len() - k,
        {
            if !self.objects[k].is_valid() {
                return false;
            }
            k += 1;
        }
        true
    }

    /// The primary ray through the center of pixel `(x, y)`.
    pub fn spawn_prime_ray(&self, x: u32, y: u32) -> (r: Ray)
        requires
            self.wf(),
            x < self.width,
            y < self.height,
        ensures
            r == self.prime_ray_spec(x as int, y as int),
            r.wf(),
    {
        let m = if self.width > self.height { self.height } else { self.width };
        let sx = sensor_exec(x, self.width, m, self.fov_scale);
        let sy = -sensor_exec(y, self.height, m, self.fov_scale);
        Ray { origin: Vector3::zero(), direction: Vector3::new(sx, sy, -ONE).normalize() }
    }

    /// The nearest object that `ray` meets, by index, and the distance to it.
    pub fn nearest(&self, ray: &Ray) -> (r: Option<(usize, i64)>)
        requires
            self.wf(),
            ray.wf(),
        ensures
            r matches Some(h) ==> h.0 < self.objects@.len() && in_range(h.1 as int)
                && self.nearest_spec(*ray) == Some(
                (h.0 as int, h.1 as int),
            ),
            r is None ==> self.nearest_spec(*ray) is None,
    {
        let mut best: Option<(usize, i64)> = None;
        let mut i: usize = 0;
        while i < self.objects.len()
            invariant
                self.wf(),
                ray.wf(),
                i <= self.objects@.len(),
                best matches Some(h) ==> h.0 < i && in_range(h.1 as int) && self.nearest_upto(
                    *ray,
                    i as nat,
                ) == Some(
                    (h.0 as int, h.1 as int),
                ),
                best is None ==> self.nearest_upto(*ray, i as nat) is None,
            decreases self.objects@.len() - i,
        {
            match self.objects[i].intersect(ray) {
                Some(hit) => {
                    let keep = match best {
                        Some(b) => b.1 <= hit.distance,
                        None => false,
                    };
                    if !keep {
                        best = Some((i, hit.distance));
                    }
                },
                None => {},
            }
            i += 1;
        }
        best
    }

    /// The contributions of all lights to a surface point, saturated into a
    /// color.
    fn direct_light(&self, hit: Vector3, normal: Vector3, albedo: i64, s: Color) -> (r: Color)
        requires
            self.wf(),
            hit.wf(),
            normal.wf(),
            in_range(albedo as int),
        ensures
            ({
                let sum = self.lit_upto(self.lights@.len(), hit, normal, albedo as int, s);
                r == rgb(sum.0, sum.1, sum.2)
            }),
    {
        let mut red: i128 = 0;
        let mut green: i128 = 0;
        let mut blue: i128 = 0;
        let mut i: usize = 0;
        let albedo_pi = crate::fixed::div(albedo, PI);
        while i < self.lights.len()
            invariant
                self.wf(),
                hit.wf(),
                normal.wf(),
                in_range(albedo as int),
                albedo_pi == fx_div(albedo as int, PI as int),
                i <= self.lights@.len(),
                (red as int, green as int, blue as int) == self.lit_upto(
                    i as nat,
                    hit,
                    normal,
                    albedo as int,
                    s,
                ),
                -(i as int) * TERM_BOUND <= red <= (i as int) * TERM_BOUND,
                -(i as int) * TERM_BOUND <= green <= (i as int) * TERM_BOUND,
                -(i as int) * TERM_BOUND <= blue <= (i as int) * TERM_BOUND,
            decreases self.lights@.len() - i,
        {
            let l = &self.lights[i];
            assert(l.wf());
            let nl = normal.dot(&l.direction(hit));
            let ndotl = if nl > 0 { nl } else { 0 };
            let f = crate::fixed::mul(crate::fixed::mul(ndotl, l.intensity(hit)), albedo_pi);
            let c = l.color();
            red = red + term(s.red, c.red, f);
            green = green + term(s.green, c.green, f);
            blue = blue + term(s.blue, c.blue, f);
            i += 1;
        }
        Color { red: channel(red), green: channel(green), blue: channel(blue) }
    }

    /// The color that `ray` sees at recursion depth `depth`: the direct light
    /// at the nearest hit, blended with the reflection for a mirror while
    /// the depth budget lasts; the background where it meets nothing.
    pub fn trace(&self, ray: &Ray, depth: u32) -> (r: Color)
        requires
            self.wf(),
            ray.wf(),
            depth <= self.max_recursion_depth,
        ensures
            r == self.trace_spec(*ray, depth as nat),
        decreases self.max_recursion_depth - depth,
    {
        match self.nearest(ray) {
            None => Color::new(BACKGROUND_LEVEL, BACKGROUND_LEVEL, BACKGROUND_LEVEL),
            Some((i, t)) => {
                let obj = &self.objects[i];
                assert(obj.wf());
                let hit = ray.origin.add(&ray.direction.scale(t));
                let normal = obj.mesh.surface_normal(hit);
                let uv = obj.mesh.texture_coords(hit);
                let s = obj.material.color(uv);
                let lit = self.direct_light(hit, normal, obj.material.albedo, s);
                match obj.material.surface_kind {
                    SurfaceKind::Reflective { reflectivity } => {
                        if depth < self.max_recursion_depth {
                            let d = ray.direction;
                            let k = clip_wide(2 * (d.dot(&normal) as i128));
                            let bounce = Ray {
                                origin: hit,
                                direction: d.sub(&normal.scale(k)).normalize(),
                            };
                            let reflected = self.trace(&bounce, depth + 1);
                            lit.scale(clip_wide(ONE as i128 - reflectivity as i128)).add(
                                &reflected.scale(reflectivity),
                            )
                        } else {
                            lit
                        }
                    },
                    _ => lit,
                }
            },
        }
    }

    /// Renders the frame: pixel `(x, y)` is at index `y * width + x`.
    pub fn render(&self) -> (r: Raster)
        requires
            self.wf(),
            self.width * self.height <= usize::MAX,
        ensures
            self.renders(&r),
            r.wf(),
    {
        let mut pixels: Vec<Color> = Vec::new();
        let ghost w = self.width as int;
        let mut y: u32 = 0;
        while y < self.height
            invariant
                self.wf(),
                w == self.width,
                self.width * self.height <= usize::MAX,
                y <= self.height,
                pixels@.len() == y * w,
                forall|k: int|
                    0 <= k < pixels@.len() ==> #[trigger] pixels@[k] == self.pixel_spec(k % w, k / w),
            decreases self.height - y,
        {
            let mut x: u32 = 0;
            while x < self.width
                invariant
                    self.wf(),
                    w == self.width,
                    self.width * self.height <= usize::MAX,
                    y < self.height,
                    x <= self.width,
                    pixels@.len() == y * w + x,
                    forall|k: int|
                        0 <= k < pixels@.len() ==> #[trigger] pixels@[k] == self.pixel_spec(
                            k % w,
                            k / w,
                        ),
                decreases self.width - x,
            {
                let ray = self.spawn_prime_ray(x, y);
                let c = self.trace(&ray, 0);
                proof {
                    let k = y * w + x;
                    vstd::arithmetic::div_mod::lemma_fundamental_div_mod_converse(k, w, y as int, x as int);
                    assert((y as int) * w + x < (self.height as int) * w) by (nonlinear_arith)
                        requires
                            y < self.height,
                            x < w,
                    ;
                }
                pixels.push(c);
                x += 1;
            }
            proof {
                assert((y as int) * w + w == (y + 1) * w) by (nonlinear_arith);
            }
            y += 1;
        }
        assert((self.height as int) * w == self.width * self.height) by (nonlinear_arith)
            requires
                w == self.width,
        ;
        Raster { width: self.width, height: self.height, pixels }
    }
}

/// Rendering is deterministic: two frames of one scene are the same.
pub proof fn lemma_render_deterministic(scene: &Scene, a: &Raster, b: &Raster)
    requires
        scene.renders(a),
        scene.renders(b),
    ensures
        a.width == b.width,
        a.height == b.height,
        a.pixels@ == b.pixels@,
{
    assert(a.pixels@ =~= b.pixels@);
}

/// Primary rays are symmetric about the center of the frame: the pixel
/// mirrored across the vertical axis gets the ray mirrored in `x`, and the
/// pixel mirrored across the horizontal axis gets the ray mirrored in `y`.
pub proof fn lemma_prime_rays_mirror(scene: &Scene, x: int, y: int)
    requires
        scene.wf(),
        0 <= x < scene.width,
        0 <= y < scene.height,
    ensures
        ({
            let d = scene.prime_ray_spec(x, y).direction;
            &&& scene.prime_ray_spec(scene.width - 1 - x, y).direction == v3(
                -d.x,
                d.y as int,
                d.z as int,
            )
            &&& scene.prime_ray_spec(x, scene.height - 1 - y).direction == v3(
                d.x as int,
                -d.y,
                d.z as int,
            )
        }),
{
    let w = scene.width as int;
    let h = scene.height as int;
    let m = if w > h { h } else { w };
    let f = scene.fov_scale as int;
    let sx = sensor(x, w, m, f);
    let sy = -sensor(y, h, m, f);
    assert((2 * (w - 1 - x) + 1 - w) * f == -((2 * x + 1 - w) * f)) by (nonlinear_arith);
    assert((2 * (h - 1 - y) + 1 - h) * f == -((2 * y + 1 - h) * f)) by (nonlinear_arith);
    crate::fixed::lemma_round_div_neg((2 * x + 1 - w) * f, m);
    crate::fixed::lemma_round_div_neg((2 * y + 1 - h) * f, m);
    let a = v3(sx, sy, -ONE);
    crate::vector::lemma_normalize_mirror(a, v3(-sx, sy, -ONE), true);
    crate::vector::lemma_normalize_mirror(a, v3(sx, -sy, -ONE), false);
}

/// `b` is the scene `a` with the lights at `k` and `k + 1` exchanged.
pub open spec fn lights_swapped(a: &Scene, b: &Scene, k: int) -> bool {
    &&& a.width == b.width
    &&& a.height == b.height
    &&& a.fov_scale == b.fov_scale
    &&& a.max_recursion_depth == b.max_recursion_depth
    &&& a.objects@ == b.objects@
    &&& 0 <= k
    &&& k + 1 < a.lights@.len()
    &&& b.lights@ == a.lights@.update(k, a.lights@[k + 1]).update(k + 1, a.lights@[k])
}

/// The sums over the first `n` lights agree, but for the one prefix that
/// holds only one of the two exchanged lights.
pub proof fn lemma_lit_swapped(
    a: &Scene,
    b: &Scene,
    k: int,
    n: nat,
    hit: Vector3,
    normal: Vector3,
    albedo: int,
    s: Color,
)
    requires
        lights_swapped(a, b, k),
        n <= a.lights@.len(),
        n != k + 1,
    ensures
        a.lit_upto(n, hit, normal, albedo, s) == b.lit_upto(n, hit, normal, albedo, s),
    decreases n,
{
    if n == 0 {
    } else if n <= k {
        lemma_lit_swapped(a, b, k, (n - 1) as nat, hit, normal, albedo, s);
    } else if n == k + 2 {
        lemma_lit_swapped(a, b, k, k as nat, hit, normal, albedo, s);
        // Naming the sums over `k + 1` lights unfolds both down to the
        // common prefix of `k` lights.
        let _ = a.lit_upto((k + 1) as nat, hit, normal, albedo, s);
        let _ = b.lit_upto((k + 1) as nat, hit, normal, albedo, s);
        assert(a.lights@[k] == b.lights@[k + 1] && a.lights@[k + 1] == b.lights@[k]);
    } else {
        lemma_lit_swapped(a, b, k, (n - 1) as nat, hit, normal, albedo, s);
    }
}

/// The nearest hit depends on the objects alone.
pub proof fn lemma_nearest_same_objects(a: &Scene, b: &Scene, ray: Ray, n: nat)
    requires
        a.objects@ == b.objects@,
        n <= a.objects@.len(),
    ensures
        a.nearest_upto(ray, n) == b.nearest_upto(ray, n),
    decreases n,
{
    if n > 0 {
        lemma_nearest_same_objects(a, b, ray, (n - 1) as nat);
    }
}

/// Exchanging two adjacent lights changes no traced color: every light's
/// contribution is truncated on its own and the contributions are summed
/// exactly, so (as any reordering is a chain of such exchanges) the order of
/// the lights does not matter.
pub proof fn lemma_trace_lights_swapped(a: &Scene, b: &Scene, k: int, ray: Ray, depth: nat)
    requires
        lights_swapped(a, b, k),
    ensures
        a.trace_spec(ray, depth) == b.trace_spec(ray, depth),
    decreases a.max_recursion_depth - depth,
{
    lemma_nearest_same_objects(a, b, ray, a.objects@.len());
    match a.nearest_spec(ray) {
        None => {},
        Some((i, t)) => {
            let obj = a.objects@[i];
            let hit = vadd(ray.origin, vscale(ray.direction, t));
            let normal = obj.mesh.normal_spec(hit);
            let sc = obj.material.color_spec(obj.mesh.uv_spec(hit));
            lemma_lit_swapped(a, b, k, a.lights@.len(), hit, normal, obj.material.albedo as int, sc);
            if depth < a.max_recursion_depth {
                lemma_trace_lights_swapped(
                    a,
                    b,
                    k,
                    Ray { origin: hit, direction: reflect(ray.direction, normal) },
                    depth + 1,
                );
            }
        },
    }
}

/// Exchanging two adjacent lights changes no pixel.
pub proof fn lemma_pixels_lights_swapped(a: &Scene, b: &Scene, k: int, x: int, y: int)
    requires
        lights_swapped(a, b, k),
    ensures
        a.pixel_spec(x, y) == b.pixel_spec(x, y),
{
    lemma_trace_lights_swapped(a, b, k, a.prime_ray_spec(x, y), 0);
}

/// The depth budget bounds reflection: once `depth` reaches the scene's
/// maximum (at once where the maximum is zero), a ray that meets an object,
/// mirror or not, sees only the direct light there.
pub proof fn lemma_reflection_bound(scene: &Scene, ray: Ray, depth: nat)
    requires
        depth >= scene.max_recursion_depth,
        scene.nearest_spec(ray) is Some,
    ensures
        ({
            let (i, t) = scene.nearest_spec(ray).unwrap();
            scene.trace_spec(ray, depth) == scene.direct_spec(ray, i, t)
        }),
{
}

/// The view-plane coordinate of the center of pixel `i` of `n`.
fn sensor_exec(i: u32, n: u32, m: u32, fov: i64) -> (r: i64)
    requires
        i < n,
        0 < m,
        in_range(fov as int),
    ensures
        r == sensor(i as int, n as int, m as int, fov as int),
        in_range(r as int),
{
    let k = 2 * (i as i128) + 1 - (n as i128);
    proof {
        assert(-0x1_0000_0000_0000_0000_0000 <= (k as int) * (fov as int) <= 0x1_0000_0000_0000_0000_0000)
            by (nonlinear_arith)
            requires
                -0x1_0000_0000 <= k <= 0x2_0000_0000,
                in_range(fov as int),
        ;
    }
    clip_wide(div_round(k * (fov as i128), m as i128))
}

/// The bound on one light's contribution to a channel: `255 * 2^24`.
pub const TERM_BOUND: i128 = 4278190080;

/// One light's contribution to a channel.
fn term(surface: u8, light: u8, factor: i64) -> (r: i128)
    requires
        in_range(factor as int),
    ensures
        r == light_term(surface as int, light as int, factor as int),
        -TERM_BOUND <= r <= TERM_BOUND,
{
    proof {
        assert(0 <= (surface as int) * (light as int) <= 255 * 255) by (nonlinear_arith)
            requires
                surface <= 255,
                light <= 255,
        ;
        assert(-(255 * 255) * LIMIT <= (surface as int) * (light as int) * (factor as int) <= (255
            * 255) * LIMIT) by (nonlinear_arith)
            requires
                0 <= (surface as int) * (light as int) <= 255 * 255,
                in_range(factor as int),
        ;
    }
    let p = (surface as i128) * (light as i128) * (factor as i128);
    let r = div_floor(p, 255 * (ONE as i128));
    proof {
        vstd::arithmetic::div_mod::lemma_div_is_ordered(p as int, (255 * 255) * LIMIT, 255 * ONE);
        vstd::arithmetic::div_mod::lemma_div_is_ordered(-(255 * 255) * LIMIT, p as int, 255 * ONE);
        vstd::arithmetic::div_mod::lemma_div_multiples_vanish(TERM_BOUND as int, 255 * ONE);
        vstd::arithmetic::div_mod::lemma_div_multiples_vanish(-TERM_BOUND, 255 * ONE);
        assert((255 * 255) * LIMIT == (255 * ONE) * TERM_BOUND);
    }
    r
}

/// Saturates a channel sum into `0..=255`.
fn channel(v: i128) -> (r: u8)
    ensures
        r == sat8(v as int),
{
    if v > 255 {
        255
    } else if v < 0 {
        0
    } else {
        v as u8
    }
}

impl Raster {
    /// The frame holds one color per pixel.
    pub open spec fn wf(&self) -> bool {
        self.pixels@.len() == self.width * self.height
    }

    /// The color of pixel `(x, y)`.
    pub fn pixel(&self, x: u32, y: u32) -> (r: Color)
        requires
            self.wf(),
            x < self.width,
            y < self.height,
        ensures
            r == self.pixels@[y * self.width + x],
    {
        let n = self.pixels.len();
        proof {
            assert((y as int) * self.width + x < (self.height as int) * self.width) by (nonlinear_arith)
                requires
                    y < self.height,
                    x < self.width,
            ;
            assert((self.height as int) * self.width == self.width * self.height) by (nonlinear_arith);
            assert(0 <= (y as int) * self.width) by (nonlinear_arith);
        }
        let row = (y as usize) * (self.width as usize);
        self.pixels[row + (x as usize)]
    }
}

} // verus!
