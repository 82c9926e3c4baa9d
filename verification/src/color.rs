//! Three-channel linear color. Channels are unconstrained during
//! computation and may leave `[0, 1]`; clamping happens only at pixel
//! quantization time, outside this library.

use crate::scalar::{rmul, sabs, Scalar};
use vstd::prelude::*;

verus! {

/// Absolute tolerance for color comparison: 0.0001.
pub const COLOR_EPS: i64 = 100;

/// The mathematical content of a color: its three raw channels.
pub struct ColorView {
    pub red: int,
    pub green: int,
    pub blue: int,
}

/// All three channels representable as raw `i64` values.
pub open spec fn color_fits_raw(c: ColorView) -> bool {
    &&& -0x7fff_ffff_ffff_ffff <= c.red <= 0x7fff_ffff_ffff_ffff
    &&& -0x7fff_ffff_ffff_ffff <= c.green <= 0x7fff_ffff_ffff_ffff
    &&& -0x7fff_ffff_ffff_ffff <= c.blue <= 0x7fff_ffff_ffff_ffff
}

/// All three channels within `bound` in magnitude.
pub open spec fn color_in_range(c: ColorView, bound: int) -> bool {
    &&& sabs(c.red) <= bound
    &&& sabs(c.green) <= bound
    &&& sabs(c.blue) <= bound
}

pub open spec fn spec_color_add(a: ColorView, b: ColorView) -> ColorView {
    ColorView { red: a.red + b.red, green: a.green + b.green, blue: a.blue + b.blue }
}

pub open spec fn spec_color_sub(a: ColorView, b: ColorView) -> ColorView {
    ColorView { red: a.red - b.red, green: a.green - b.green, blue: a.blue - b.blue }
}

/// Channelwise (Hadamard) product.
pub open spec fn spec_color_mul(a: ColorView, b: ColorView) -> ColorView {
    ColorView {
        red: rmul(a.red, b.red),
        green: rmul(a.green, b.green),
        blue: rmul(a.blue, b.blue),
    }
}

/// Each channel multiplied by the scalar with raw value `k`.
pub open spec fn spec_color_scale(a: ColorView, k: int) -> ColorView {
    ColorView { red: rmul(a.red, k), green: rmul(a.green, k), blue: rmul(a.blue, k) }
}

/// Channelwise agreement within the color tolerance.
pub open spec fn spec_color_approx(a: ColorView, b: ColorView) -> bool {
    &&& sabs(a.red - b.red) <= COLOR_EPS
    &&& sabs(a.green - b.green) <= COLOR_EPS
    &&& sabs(a.blue - b.blue) <= COLOR_EPS
}

/// A linear color with red, green and blue channels.
#[derive(Clone, Copy, Debug)]
pub struct Color {
    pub red: Scalar,
    pub green: Scalar,
    pub blue: Scalar,
}

impl View for Color {
    type V = ColorView;

    open spec fn view(&self) -> ColorView {
        ColorView { red: self.red@, green: self.green@, blue: self.blue@ }
    }
}

/// A color from its three channels.
pub fn color(red: Scalar, green: Scalar, blue: Scalar) -> (r: Color)
    ensures
        r@ == (ColorView { red: red@, green: green@, blue: blue@ }),
{
    Color { red, green, blue }
}

impl Color {
    /// Black: every channel zero.
    pub fn create_black() -> (r: Color)
        ensures
            r@ == (ColorView { red: 0, green: 0, blue: 0 }),
    {
        Color { red: Scalar { raw: 0 }, green: Scalar { raw: 0 }, blue: Scalar { raw: 0 } }
    }

    /// Exact channelwise sum.
    pub fn add(self, rhs: Color) -> (r: Color)
        requires
            color_fits_raw(spec_color_add(self@, rhs@)),
        ensures
            r@ == spec_color_add(self@, rhs@),
    {
        Color {
            red: self.red.add(rhs.red),
            green: self.green.add(rhs.green),
            blue: self.blue.add(rhs.blue),
        }
    }

    /// Exact channelwise difference.
    pub fn sub(self, rhs: Color) -> (r: Color)
        requires
            color_fits_raw(spec_color_sub(self@, rhs@)),
        ensures
            r@ == spec_color_sub(self@, rhs@),
    {
        Color {
            red: self.red.sub(rhs.red),
            green: self.green.sub(rhs.green),
            blue: self.blue.sub(rhs.blue),
        }
    }

    /// Channelwise (Hadamard) product, rounded.
    pub fn mul(self, rhs: Color) -> (r: Color)
        requires
            color_fits_raw(spec_color_mul(self@, rhs@)),
        ensures
            r@ == spec_color_mul(self@, rhs@),
    {
        Color {
            red: self.red.mul(rhs.red),
            green: self.green.mul(rhs.green),
            blue: self.blue.mul(rhs.blue),
        }
    }

    /// Each channel multiplied by `k`, rounded.
    pub fn scale(self, k: Scalar) -> (r: Color)
        requires
            color_fits_raw(spec_color_scale(self@, k@)),
        ensures
            r@ == spec_color_scale(self@, k@),
    {
        Color { red: self.red.mul(k), green: self.green.mul(k), blue: self.blue.mul(k) }
    }

    /// Channelwise agreement within the color tolerance of 0.0001.
    pub fn approx_eq(&self, other: &Color) -> (r: bool)
        ensures
            r == spec_color_approx(self@, other@),
    {
        let eps = Scalar { raw: COLOR_EPS };
        self.red.approx_eq(other.red, eps) && self.green.approx_eq(other.green, eps)
            && self.blue.approx_eq(other.blue, eps)
    }
}

} // verus!
