//! A point light, and the Phong combination of ambient, diffuse and
//! specular terms it produces on a surface.

use crate::color::{
    color_in_range, spec_color_add, spec_color_mul, spec_color_scale, Color, ColorView,
};
use crate::material::{Material, MaterialView};
use crate::ray::{lemma_dot_range, reflect, spec_reflect};
use crate::scalar::{lemma_rmul_bound, rmul, rpow, sabs, SCALE};
use crate::tuple::{in_range, spec_dot, spec_neg, spec_normalize, spec_sub, Tuple, TupleView};
use crate::MathError;
use vstd::prelude::*;

verus! {

/// Colors, positions and reflectance coefficients handed to `lighting`
/// must stay below this raw bound (the value 1000).
pub const LIGHT_LIMIT: i64 = 1_000_000_000;

/// Eye and normal vectors handed to `lighting` must stay below this raw
/// bound (the value 2): both are expected normalized, with generous slack.
pub const UNIT_LIMIT: i64 = 2_000_000;

/// The specular exponent handed to `lighting` is capped here so that the
/// iterated products of the falloff stay representable.
pub const SHININESS_LIMIT: u32 = 400;

/// The mathematical content of a point light.
pub struct LightView {
    pub intensity: ColorView,
    pub position: TupleView,
}

/// A point light: an intensity and a position.
#[derive(Clone, Copy, Debug)]
pub struct PointLight {
    pub intensity: Color,
    pub position: Tuple,
}

impl View for PointLight {
    type V = LightView;

    open spec fn view(&self) -> LightView {
        LightView { intensity: self.intensity@, position: self.position@ }
    }
}

impl PointLight {
    /// A point light from its intensity and position.
    pub fn set_point_light(intensity: Color, position: Tuple) -> (r: PointLight)
        ensures
            r@.intensity == intensity@,
            r@.position == position@,
    {
        PointLight { intensity, position }
    }
}

/// The black color: every channel zero.
pub open spec fn spec_black() -> ColorView {
    ColorView { red: 0, green: 0, blue: 0 }
}

/// What `lighting` returns: `ambient + diffuse + specular`, with the
/// diffuse and specular terms black when the light is behind the surface,
/// and the specular term black when the reflection misses the eye. A light
/// sitting exactly on the surface point has no direction
/// (`DegenerateVector`); a reflection more than slightly past the unit
/// magnitude cannot be raised to the shininess power (`OutOfRange`).
pub open spec fn spec_lighting(
    m: MaterialView,
    light: LightView,
    point: TupleView,
    eye: TupleView,
    normal: TupleView,
) -> Result<ColorView, MathError> {
    if light.position == point {
        Err(MathError::DegenerateVector)
    } else {
        let effective = spec_color_mul(m.color, light.intensity);
        let lv = spec_normalize(spec_sub(light.position, point));
        let ambient = spec_color_scale(effective, m.ambient);
        let ldn = spec_dot(lv, normal);
        if ldn < 0 {
            Ok(spec_color_add(spec_color_add(ambient, spec_black()), spec_black()))
        } else {
            let diffuse = spec_color_scale(spec_color_scale(effective, m.diffuse), ldn);
            let rv = spec_reflect(spec_neg(lv), normal);
            let rde = spec_dot(rv, eye);
            if rde <= 0 {
                Ok(spec_color_add(spec_color_add(ambient, diffuse), spec_black()))
            } else if rde > SCALE + 500 {
                Err(MathError::OutOfRange)
            } else {
                let factor = rpow(rde, m.shininess as nat);
                let specular = spec_color_scale(
                    spec_color_scale(light.intensity, m.specular),
                    factor,
                );
                Ok(spec_color_add(spec_color_add(ambient, diffuse), specular))
            }
        }
    }
}

/// The Phong model: combines the material's ambient, diffuse and specular
/// reflectance under one point light into the color seen at the surface
/// point. The eye and normal vectors point away from the surface and are
/// expected normalized.
#[verifier::rlimit(100)]
pub fn lighting(
    m: Material,
    light: PointLight,
    point: Tuple,
    eye_vector: Tuple,
    normal_vector: Tuple,
) -> (r: Result<Color, MathError>)
    requires
        color_in_range(m@.color, LIGHT_LIMIT as int),
        color_in_range(light@.intensity, LIGHT_LIMIT as int),
        sabs(m@.ambient) <= LIGHT_LIMIT,
        sabs(m@.diffuse) <= LIGHT_LIMIT,
        sabs(m@.specular) <= LIGHT_LIMIT,
        m@.shininess <= SHININESS_LIMIT,
        in_range(light@.position, LIGHT_LIMIT as int),
        in_range(point@, LIGHT_LIMIT as int),
        in_range(eye_vector@, UNIT_LIMIT as int),
        in_range(normal_vector@, UNIT_LIMIT as int),
    ensures
        match r {
            Ok(c) => spec_lighting(m@, light@, point@, eye_vector@, normal_vector@) == Ok::<
                ColorView,
                MathError,
            >(c@),
            Err(e) => spec_lighting(m@, light@, point@, eye_vector@, normal_vector@) == Err::<
                ColorView,
                MathError,
            >(e),
        },
{
    proof {
        lemma_rmul_bound(m@.color.red, light@.intensity.red, 1_000_000_000, 1_000_000_000);
        lemma_rmul_bound(m@.color.green, light@.intensity.green, 1_000_000_000, 1_000_000_000);
        lemma_rmul_bound(m@.color.blue, light@.intensity.blue, 1_000_000_000, 1_000_000_000);
    }
    let effective_color = m.color.mul(light.intensity);
    let difference = light.position.sub(point);
    let light_vector = match difference.normalize() {
        Ok(v) => v,
        Err(_) => {
            proof {
                assert(light@.position == point@);
            }
            return Err(MathError::DegenerateVector);
        },
    };
    proof {
        assert(light@.position != point@);
        lemma_rmul_bound(effective_color@.red, m@.ambient, 1_000_000_000_001, 1_000_000_000);
        lemma_rmul_bound(effective_color@.green, m@.ambient, 1_000_000_000_001, 1_000_000_000);
        lemma_rmul_bound(effective_color@.blue, m@.ambient, 1_000_000_000_001, 1_000_000_000);
    }
    let ambient = effective_color.scale(m.ambient);
    proof {
        lemma_dot_range(light_vector@, normal_vector@, 1_000_000, 2_000_000);
    }
    let light_dot_normal = Tuple::dot(light_vector, normal_vector);
    let diffuse: Color;
    let specular: Color;
    if light_dot_normal.raw < 0 {
        diffuse = Color::create_black();
        specular = Color::create_black();
    } else {
        proof {
            lemma_rmul_bound(effective_color@.red, m@.diffuse, 1_000_000_000_001, 1_000_000_000);
            lemma_rmul_bound(effective_color@.green, m@.diffuse, 1_000_000_000_001, 1_000_000_000);
            lemma_rmul_bound(effective_color@.blue, m@.diffuse, 1_000_000_000_001, 1_000_000_000);
        }
        let diffuse_base = effective_color.scale(m.diffuse);
        proof {
            lemma_rmul_bound(diffuse_base@.red, light_dot_normal@, 1_000_000_000_001_001,
                8_000_004);
            lemma_rmul_bound(diffuse_base@.green, light_dot_normal@, 1_000_000_000_001_001,
                8_000_004);
            lemma_rmul_bound(diffuse_base@.blue, light_dot_normal@, 1_000_000_000_001_001,
                8_000_004);
        }
        diffuse = diffuse_base.scale(light_dot_normal);
        let reflect_vector = reflect(light_vector.neg(), normal_vector);
        proof {
            lemma_dot_range(spec_neg(light_vector@), normal_vector@, 1_000_000, 2_000_000);
            lemma_rmul_bound(2 * SCALE as int, spec_dot(spec_neg(light_vector@), normal_vector@),
                2_000_000, 8_000_004);
            lemma_rmul_bound(normal_vector@.x, rmul(
                2 * SCALE,
                spec_dot(spec_neg(light_vector@), normal_vector@),
            ), 2_000_000, 16_000_009);
            lemma_rmul_bound(normal_vector@.y, rmul(
                2 * SCALE,
                spec_dot(spec_neg(light_vector@), normal_vector@),
            ), 2_000_000, 16_000_009);
            lemma_rmul_bound(normal_vector@.z, rmul(
                2 * SCALE,
                spec_dot(spec_neg(light_vector@), normal_vector@),
            ), 2_000_000, 16_000_009);
            lemma_rmul_bound(normal_vector@.w, rmul(
                2 * SCALE,
                spec_dot(spec_neg(light_vector@), normal_vector@),
            ), 2_000_000, 16_000_009);
            lemma_dot_range(reflect_vector@, eye_vector@, 34_000_000, 2_000_000);
        }
        let reflect_dot_eye = Tuple::dot(reflect_vector, eye_vector);
        if reflect_dot_eye.raw <= 0 {
            specular = Color::create_black();
        } else if reflect_dot_eye.raw > SCALE + 500 {
            return Err(MathError::OutOfRange);
        } else {
            let factor = reflect_dot_eye.pow(m.shininess);
            proof {
                lemma_rmul_bound(light@.intensity.red, m@.specular, 1_000_000_000, 1_000_000_000);
                lemma_rmul_bound(light@.intensity.green, m@.specular, 1_000_000_000,
                    1_000_000_000);
                lemma_rmul_bound(light@.intensity.blue, m@.specular, 1_000_000_000,
                    1_000_000_000);
            }
            let specular_base = light.intensity.scale(m.specular);
            proof {
                lemma_rmul_bound(specular_base@.red, factor@, 1_000_000_000_001, 1_280_000);
                lemma_rmul_bound(specular_base@.green, factor@, 1_000_000_000_001, 1_280_000);
                lemma_rmul_bound(specular_base@.blue, factor@, 1_000_000_000_001, 1_280_000);
            }
            specular = specular_base.scale(factor);
        }
    }
    Ok(ambient.add(diffuse).add(specular))
}

/// LAW: with the light behind the surface, so that the direction towards
/// the light dots negatively with the normal, the lit color is exactly the
/// ambient term alone.
pub proof fn lemma_lighting_light_behind(
    m: MaterialView,
    light: LightView,
    point: TupleView,
    eye: TupleView,
    normal: TupleView,
)
    requires
        light.position != point,
        spec_dot(spec_normalize(spec_sub(light.position, point)), normal) < 0,
    ensures
        spec_lighting(m, light, point, eye, normal) == Ok::<ColorView, MathError>(
            spec_color_scale(spec_color_mul(m.color, light.intensity), m.ambient),
        ),
{
    let ambient = spec_color_scale(spec_color_mul(m.color, light.intensity), m.ambient);
    assert(spec_color_add(spec_color_add(ambient, spec_black()), spec_black()) == ambient);
}

} // verus!
