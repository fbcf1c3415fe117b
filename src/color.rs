//! Eight-bit RGB colors with saturating arithmetic.
use vstd::prelude::*;

use crate::fixed::{in_range, ONE};
use crate::vector::{v3, Vector3};

verus! {

#[verifier::external_type_specification]
#[verifier::reject_recursive_types(T)]
pub struct ExRgba<T>(image::Rgba<T>);

/// An opaque RGB color.
#[derive(Debug, Clone, Copy, PartialEq, Eq, Structural)]
pub struct Color {
    pub red: u8,
    pub green: u8,
    pub blue: u8,
}

/// Saturates a channel value into `0..=255`.
pub open spec fn sat8(v: int) -> int {
    if v > 255 {
        255
    } else if v < 0 {
        0
    } else {
        v
    }
}

/// The color with the given (saturated) channel values.
pub open spec fn rgb(r: int, g: int, b: int) -> Color {
    Color { red: sat8(r) as u8, green: sat8(g) as u8, blue: sat8(b) as u8 }
}

/// A channel scaled by a fixed-point factor, truncated, saturated.
pub open spec fn channel_scale(c: int, s: int) -> int {
    sat8((c * s) / (ONE as int))
}

/// Two channels multiplied as fractions of 255.
pub open spec fn channel_mul(a: int, b: int) -> int {
    (a * b) / 255
}

/// A channel as a fixed-point fraction of 255.
pub open spec fn channel_perc(c: int) -> int {
    (c * ONE) / 255
}

pub open spec fn color_add(a: Color, b: Color) -> Color {
    rgb(a.red + b.red, a.green + b.green, a.blue + b.blue)
}

pub open spec fn color_mul(a: Color, b: Color) -> Color {
    rgb(
        channel_mul(a.red as int, b.red as int),
        channel_mul(a.green as int, b.green as int),
        channel_mul(a.blue as int, b.blue as int),
    )
}

pub open spec fn color_scale(a: Color, s: int) -> Color {
    rgb(
        channel_scale(a.red as int, s),
        channel_scale(a.green as int, s),
        channel_scale(a.blue as int, s),
    )
}

/// Scales one channel by a fixed-point factor.
fn scale_channel(c: u8, s: i64) -> (r: u8)
    requires
        in_range(s as int),
    ensures
        r == channel_scale(c as int, s as int),
{
    if s <= 0 {
        proof {
            assert((c as int) * (s as int) <= 0) by (nonlinear_arith)
                requires
                    s <= 0,
            ;
        }
        0
    } else {
        proof {
            assert((c as int) * (s as int) <= 255 * 0x100_0000_0000) by (nonlinear_arith)
                requires
                    0 < s <= 0x100_0000_0000,
                    c <= 255,
            ;
        }
        let q = ((c as u64) * (s as u64)) / (ONE as u64);
        if q > 255 {
            255
        } else {
            q as u8
        }
    }
}

/// Multiplies two channels as fractions of 255.
fn mul_channel(a: u8, b: u8) -> (r: u8)
    ensures
        r == channel_mul(a as int, b as int),
{
    proof {
        assert(0 <= (a as int) * (b as int) <= 255 * 255) by (nonlinear_arith)
            requires
                a <= 255,
                b <= 255,
        ;
    }
    ((a as u32) * (b as u32) / 255) as u8
}

/// Adds two channels, saturating at 255.
fn add_channel(a: u8, b: u8) -> (r: u8)
    ensures
        r == sat8(a + b),
{
    let s = a as u16 + b as u16;
    if s > 255 {
        255
    } else {
        s as u8
    }
}

/// One channel as a fixed-point fraction of 255.
fn perc_channel(c: u8) -> (r: i64)
    ensures
        r == channel_perc(c as int),
        0 <= r <= ONE,
{
    ((c as i64) * ONE) / 255
}

impl Color {
    pub fn new(red: u8, green: u8, blue: u8) -> (r: Color)
        ensures
            r == (Color { red, green, blue }),
    {
        Color { red, green, blue }
    }

    /// Every channel bounded by 255: the color itself.
    pub fn clamp(&self) -> (r: Color)
        ensures
            r == *self,
    {
        Color {
            red: if self.red < 255 { self.red } else { 255 },
            green: if self.green < 255 { self.green } else { 255 },
            blue: if self.blue < 255 { self.blue } else { 255 },
        }
    }

    /// Channel-wise sum, saturating at 255.
    pub fn add(&self, o: &Color) -> (r: Color)
        ensures
            r == color_add(*self, *o),
    {
        Color {
            red: add_channel(self.red, o.red),
            green: add_channel(self.green, o.green),
            blue: add_channel(self.blue, o.blue),
        }
    }

    /// Channel-wise product of the two colors taken as fractions of 255.
    pub fn mul_color(&self, o: &Color) -> (r: Color)
        ensures
            r == color_mul(*self, *o),
    {
        Color {
            red: mul_channel(self.red, o.red),
            green: mul_channel(self.green, o.green),
            blue: mul_channel(self.blue, o.blue),
        }
    }

    /// Every channel times a fixed-point factor, truncated; a product over
    /// 255 saturates and one under 0 gives 0.
    pub fn scale(&self, s: i64) -> (r: Color)
        requires
            in_range(s as int),
        ensures
            r == color_scale(*self, s as int),
    {
        Color {
            red: scale_channel(self.red, s),
            green: scale_channel(self.green, s),
            blue: scale_channel(self.blue, s),
        }
    }

    /// The color as an opaque RGBA pixel.
    pub fn to_rgba(&self) -> (r: image::Rgba<u8>)
        ensures
            r.0@ == seq![self.red, self.green, self.blue, 255u8],
    {
        image::Rgba([self.red, self.green, self.blue, 255])
    }

    /// The channels as fixed-point fractions of 255.
    pub fn to_perc(&self) -> (r: Vector3)
        ensures
            r == v3(
                channel_perc(self.red as int),
                channel_perc(self.green as int),
                channel_perc(self.blue as int),
            ),
            r.wf(),
    {
        Vector3 {
            x: perc_channel(self.red),
            y: perc_channel(self.green),
            z: perc_channel(self.blue),
        }
    }
}

} // verus!
