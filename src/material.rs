//! Surface appearance: flat colors, tiled textures and surface kinds.
use vstd::prelude::*;

use image::GenericImageView;

use crate::color::Color;
use crate::fixed::{in_range, ONE};
use crate::vector::Vector2;

verus! {

#[verifier::external_type_specification]
#[verifier::external_body]
pub struct ExDynamicImage(image::DynamicImage);

/// Whether a decoded image stores 8-bit RGBA samples.
pub uninterp spec fn image_is_rgba8(img: image::DynamicImage) -> bool;

/// Relies on `DynamicImage::as_rgba8`: `Some` exactly for the `ImageRgba8`
/// variant.
#[verifier::external_body]
fn is_rgba8(img: &image::DynamicImage) -> (r: bool)
    ensures
        r == image_is_rgba8(*img),
{
    img.as_rgba8().is_some()
}

/// The width in pixels of a decoded RGBA image.
pub uninterp spec fn image_width(img: image::DynamicImage) -> nat;

/// The height in pixels of a decoded RGBA image.
pub uninterp spec fn image_height(img: image::DynamicImage) -> nat;

/// The RGB channels of a decoded RGBA image's pixels, keyed by `(x, y)`.
pub uninterp spec fn image_pixels(img: image::DynamicImage) -> Map<(int, int), (u8, u8, u8)>;

/// Relies on `DynamicImage::width`: the width of the image.
#[verifier::external_body]
fn width_of(img: &image::DynamicImage) -> (r: u32)
    ensures
        r == image_width(*img),
{
    img.width()
}

/// Relies on `DynamicImage::height`: the height of the image.
#[verifier::external_body]
fn height_of(img: &image::DynamicImage) -> (r: u32)
    ensures
        r == image_height(*img),
{
    img.height()
}

/// Relies on `GenericImageView::get_pixel` for `DynamicImage`: the pixel at
/// `(x, y)`, which panics outside the image. On an `ImageRgba8` image it
/// copies the stored 8-bit samples (other sample types are converted, and
/// float samples can panic there, so those images are not admitted); the
/// alpha channel is dropped.
#[verifier::external_body]
fn pixel_of(img: &image::DynamicImage, x: u32, y: u32) -> (r: Color)
    requires
        image_is_rgba8(*img),
        x < image_width(*img),
        y < image_height(*img),
    ensures
        (r.red, r.green, r.blue) == image_pixels(*img)[(x as int, y as int)],
{
    let p = img.get_pixel(x, y);
    Color { red: p.0[0], green: p.0[1], blue: p.0[2] }
}

/// The texel index along an axis of `n` pixels for the fixed-point
/// coordinate `v`: `floor(v * n) mod n`, which repeats the texture.
pub open spec fn wrap_index(v: int, n: int) -> int {
    ((v * n) / (ONE as int)) % n
}

/// Rounds a remainder toward the non-negative residue.
fn mod_floor(q: i128, n: i128) -> (r: i128)
    requires
        0 < n,
        -0x1000_0000_0000_0000_0000_0000_0000 <= q <= 0x1000_0000_0000_0000_0000_0000_0000,
    ensures
        r == (q as int) % (n as int),
        0 <= r < n,
{
    if q >= 0 {
        ((q as u128) % (n as u128)) as i128
    } else {
        let m = ((-q) as u128) % (n as u128);
        proof {
            let a = -(q as int);
            let k = a / (n as int);
            vstd::arithmetic::div_mod::lemma_fundamental_div_mod(a, n as int);
            vstd::arithmetic::div_mod::lemma_mod_pos_bound(a, n as int);
            if m == 0 {
                assert(q == (-k) * n + 0) by (nonlinear_arith)
                    requires
                        a == n * k + m,
                        m == 0,
                        q == -a,
                ;
                vstd::arithmetic::div_mod::lemma_fundamental_div_mod_converse(q as int, n as int, -k, 0);
            } else {
                assert(q == (-k - 1) * n + (n - m)) by (nonlinear_arith)
                    requires
                        a == n * k + m,
                        q == -a,
                ;
                vstd::arithmetic::div_mod::lemma_fundamental_div_mod_converse(
                    q as int,
                    n as int,
                    -k - 1,
                    n - m,
                );
            }
        }
        if m == 0 {
            0
        } else {
            (n as i128) - (m as i128)
        }
    }
}

/// The texel index along an axis of `n` pixels.
fn wrap(v: i64, n: u32) -> (r: u32)
    requires
        in_range(v as int),
        0 < n,
    ensures
        r == wrap_index(v as int, n as int),
        r < n,
{
    assert(-0x1_0000_0000_0000_0000_0000 <= (v as int) * (n as int) <= 0x1_0000_0000_0000_0000_0000)
        by (nonlinear_arith)
        requires
            in_range(v as int),
            n <= 0xffff_ffff,
    ;
    let t = (v as i128) * (n as i128);
    let q = crate::fixed::div_floor(t, ONE as i128);
    mod_floor(q, n as i128) as u32
}

/// A decoded 8-bit RGBA image sampled with wrap-around, so that it tiles the
/// plane.
#[derive(Debug)]
pub struct Texture {
    pub image: image::DynamicImage,
}

impl Texture {
    /// The image stores 8-bit RGBA samples and has at least one pixel.
    pub open spec fn wf(&self) -> bool {
        image_is_rgba8(self.image) && image_width(self.image) > 0 && image_height(self.image) > 0
    }

    /// The texel that a texture coordinate selects.
    pub open spec fn texel_spec(&self, uv: Vector2) -> (int, int) {
        (
            wrap_index(uv.x as int, image_width(self.image) as int),
            wrap_index(uv.y as int, image_height(self.image) as int),
        )
    }

    pub open spec fn color_at_spec(&self, uv: Vector2) -> Color {
        let p = image_pixels(self.image)[self.texel_spec(uv)];
        Color { red: p.0, green: p.1, blue: p.2 }
    }

    pub fn is_valid(&self) -> (r: bool)
        ensures
            r == self.wf(),
    {
        is_rgba8(&self.image) && width_of(&self.image) > 0 && height_of(&self.image) > 0
    }

    /// A texture over `image`, or `None` where the image has no pixel or
    /// does not store 8-bit RGBA samples.
    pub fn new(image: image::DynamicImage) -> (r: Option<Texture>)
        ensures
            r is Some <==> image_is_rgba8(image) && image_width(image) > 0 && image_height(image)
                > 0,
            r matches Some(t) ==> t.image == image && t.wf(),
    {
        let w = width_of(&image);
        let h = height_of(&image);
        if !is_rgba8(&image) || w == 0 || h == 0 {
            None
        } else {
            Some(Texture { image })
        }
    }

    /// The color at a texture coordinate, wrapping both coordinates.
    pub fn color_at(&self, uv: Vector2) -> (r: Color)
        requires
            self.wf(),
            in_range(uv.x as int),
            in_range(uv.y as int),
        ensures
            r == self.color_at_spec(uv),
    {
        let w = width_of(&self.image);
        let h = height_of(&self.image);
        let x = wrap(uv.x, w);
        let y = wrap(uv.y, h);
        pixel_of(&self.image, x, y)
    }
}

/// Texture tiling: coordinates that differ by whole numbers select the same
/// texel, whatever the size of the texture.
pub proof fn lemma_texture_tiling(t: &Texture, uv: Vector2, other: Vector2, du: int, dv: int)
    requires
        t.wf(),
        other.x == uv.x + du * ONE,
        other.y == uv.y + dv * ONE,
    ensures
        t.texel_spec(other) == t.texel_spec(uv),
        t.color_at_spec(other) == t.color_at_spec(uv),
{
    lemma_wrap_periodic(uv.x as int, du, image_width(t.image) as int);
    lemma_wrap_periodic(uv.y as int, dv, image_height(t.image) as int);
}

/// Shifting a coordinate by `k` whole units leaves its texel index unchanged.
pub proof fn lemma_wrap_periodic(v: int, k: int, n: int)
    requires
        n > 0,
    ensures
        wrap_index(v + k * ONE, n) == wrap_index(v, n),
{
    let one = ONE as int;
    assert((v + k * one) * n == v * n + (k * n) * one) by (nonlinear_arith);
    vstd::arithmetic::div_mod::lemma_hoist_over_denominator(v * n, k * n, one as nat);
    vstd::arithmetic::div_mod::lemma_mod_multiples_vanish(k, (v * n) / one, n);
    assert(n * k + (v * n) / one == (v * n) / one + k * n) by (nonlinear_arith);
}

/// How an object's base color is found.
#[derive(Debug)]
pub enum Coloring {
    Color(Color),
    Texture(Texture),
}

/// How a surface treats light beyond diffuse reflection.
#[derive(Debug, Clone, Copy)]
pub enum SurfaceKind {
    Diffuse,
    /// A mirror: `reflectivity` is the fixed-point weight of the reflected
    /// color in the blend.
    Reflective { reflectivity: i64 },
    /// Transparent surfaces are not traced yet: they shade as diffuse ones.
    Refractive,
}

/// An object's appearance.
#[derive(Debug)]
pub struct Material {
    pub coloring: Coloring,
    pub albedo: i64,
    pub surface_kind: SurfaceKind,
}

impl Material {
    /// Textures are non-empty and the coefficients are in range.
    pub open spec fn wf(&self) -> bool {
        &&& in_range(self.albedo as int)
        &&& (self.coloring matches Coloring::Texture(t) ==> t.wf())
        &&& (self.surface_kind matches SurfaceKind::Reflective { reflectivity } ==> in_range(
            reflectivity as int,
        ))
    }

    pub open spec fn color_spec(&self, uv: Vector2) -> Color {
        match self.coloring {
            Coloring::Color(c) => c,
            Coloring::Texture(t) => t.color_at_spec(uv),
        }
    }

    pub fn is_valid(&self) -> (r: bool)
        ensures
            r == self.wf(),
    {
        let coloring_ok = match &self.coloring {
            Coloring::Color(_) => true,
            Coloring::Texture(t) => t.is_valid(),
        };
        let kind_ok = match self.surface_kind {
            SurfaceKind::Reflective { reflectivity } => crate::fixed::is_in_range(reflectivity),
            _ => true,
        };
        crate::fixed::is_in_range(self.albedo) && coloring_ok && kind_ok
    }

    pub fn new(coloring: Coloring, albedo: i64, surface_kind: SurfaceKind) -> (r: Material)
        ensures
            r == (Material { coloring, albedo, surface_kind }),
    {
        Material { coloring, albedo, surface_kind }
    }

    /// The base color at a texture coordinate.
    pub fn color(&self, uv: Vector2) -> (r: Color)
        requires
            self.wf(),
            in_range(uv.x as int),
            in_range(uv.y as int),
        ensures
            r == self.color_spec(uv),
    {
        match &self.coloring {
            Coloring::Color(c) => *c,
            Coloring::Texture(t) => t.color_at(uv),
        }
    }
}

} // verus!
