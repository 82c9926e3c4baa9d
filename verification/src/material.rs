//! Surface reflectance: the coefficients the Phong model combines.

use crate::color::{color, spec_color_approx, Color, ColorView};
use crate::scalar::{sabs, Scalar, SCALE};
use vstd::prelude::*;

verus! {

/// Absolute tolerance for comparing reflectance coefficients: 0.0001.
pub const MATERIAL_EPS: i64 = 100;

/// The mathematical content of a material.
pub struct MaterialView {
    pub color: ColorView,
    pub ambient: int,
    pub diffuse: int,
    pub specular: int,
    pub shininess: int,
}

/// The stock material: white, ambient 0.1, diffuse 0.9, specular 0.9,
/// shininess 200.
pub open spec fn spec_default_material() -> MaterialView {
    MaterialView {
        color: ColorView { red: SCALE as int, green: SCALE as int, blue: SCALE as int },
        ambient: 100_000,
        diffuse: 900_000,
        specular: 900_000,
        shininess: 200,
    }
}

/// A surface's base color and reflectance coefficients. The shininess is
/// the integer exponent of the specular falloff.
#[derive(Clone, Copy, Debug)]
pub struct Material {
    pub color: Color,
    pub ambient: Scalar,
    pub diffuse: Scalar,
    pub specular: Scalar,
    pub shininess: u32,
}

impl View for Material {
    type V = MaterialView;

    open spec fn view(&self) -> MaterialView {
        MaterialView {
            color: self.color@,
            ambient: self.ambient@,
            diffuse: self.diffuse@,
            specular: self.specular@,
            shininess: self.shininess as int,
        }
    }
}

impl Material {
    /// The stock material: white, ambient 0.1, diffuse 0.9, specular 0.9,
    /// shininess 200.
    pub fn default_material() -> (r: Material)
        ensures
            r@ == spec_default_material(),
    {
        let white = color(
            Scalar { raw: SCALE },
            Scalar { raw: SCALE },
            Scalar { raw: SCALE },
        );
        Material {
            color: white,
            ambient: Scalar { raw: 100_000 },
            diffuse: Scalar { raw: 900_000 },
            specular: Scalar { raw: 900_000 },
            shininess: 200,
        }
    }

    /// Agreement of every coefficient within the material tolerance, the
    /// color within the color tolerance, and the shininess exactly.
    pub fn approx_eq(&self, other: &Material) -> (r: bool)
        ensures
            r == (sabs(self@.ambient - other@.ambient) <= MATERIAL_EPS && sabs(
                self@.diffuse - other@.diffuse,
            ) <= MATERIAL_EPS && sabs(self@.specular - other@.specular) <= MATERIAL_EPS
                && self@.shininess == other@.shininess && spec_color_approx(
                self@.color,
                other@.color,
            )),
    {
        let eps = Scalar { raw: MATERIAL_EPS };
        self.ambient.approx_eq(other.ambient, eps) && self.diffuse.approx_eq(other.diffuse, eps)
            && self.specular.approx_eq(other.specular, eps) && self.shininess == other.shininess
            && self.color.approx_eq(&other.color)
    }
}

} // verus!
