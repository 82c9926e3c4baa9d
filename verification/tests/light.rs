use tracer::color::color;
use tracer::light::{lighting, PointLight};
use tracer::material::Material;
use tracer::scalar::Scalar;
use tracer::tuple::Tuple;
use tracer::MathError;

fn ls(num: i64, den: i64) -> Scalar {
    Scalar::from_ratio(num, den)
}

fn li(i: i64) -> Scalar {
    Scalar::from_int(i)
}

#[test]
fn test_light_struct() {
    let intensity = color(li(1), li(1), li(1));
    let position = Tuple::set_point(li(0), li(0), li(0));
    let point_light = PointLight::set_point_light(intensity, position);
    assert!(point_light.intensity.approx_eq(&intensity));
    assert!(point_light.position.approx_eq(&position));
}

#[test]
fn test_lighting_flat() {
    let m = Material::default_material();
    let position = Tuple::set_point(li(0), li(0), li(0));

    let eye_vector = Tuple::set_vector(li(0), li(0), li(-1));
    let normal_vector = Tuple::set_vector(li(0), li(0), li(-1));

    let light_intensity = color(li(1), li(1), li(1));
    let light_position = Tuple::set_point(li(0), li(0), li(-10));
    let point_light = PointLight::set_point_light(light_intensity, light_position);
    let actual = lighting(m, point_light, position, eye_vector, normal_vector).unwrap();

    let expected = color(ls(19, 10), ls(19, 10), ls(19, 10));
    assert!(actual.approx_eq(&expected));
}

#[test]
fn test_lighting_eye_45_offset() {
    let m = Material::default_material();
    let position = Tuple::set_point(li(0), li(0), li(0));

    let half_root2 = li(2).sqrt().div(li(2));
    let eye_vector = Tuple::set_vector(li(0), half_root2, half_root2.neg());
    let normal_vector = Tuple::set_vector(li(0), li(0), li(-1));

    let light_intensity = color(li(1), li(1), li(1));
    let light_position = Tuple::set_point(li(0), li(0), li(-10));
    let point_light = PointLight::set_point_light(light_intensity, light_position);
    let actual = lighting(m, point_light, position, eye_vector, normal_vector).unwrap();

    let expected = color(li(1), li(1), li(1));
    assert!(actual.approx_eq(&expected));
}

#[test]
fn test_lighting_light_45_offset() {
    let m = Material::default_material();
    let position = Tuple::set_point(li(0), li(0), li(0));

    let eye_vector = Tuple::set_vector(li(0), li(0), li(-1));
    let normal_vector = Tuple::set_vector(li(0), li(0), li(-1));

    let light_intensity = color(li(1), li(1), li(1));
    let light_position = Tuple::set_point(li(0), li(10), li(-10));
    let point_light = PointLight::set_point_light(light_intensity, light_position);
    let actual = lighting(m, point_light, position, eye_vector, normal_vector).unwrap();

    let expected = color(ls(7364, 10000), ls(7364, 10000), ls(7364, 10000));
    assert!(actual.approx_eq(&expected));
}

#[test]
fn test_lighting_eye_reflection_path() {
    let m = Material::default_material();
    let position = Tuple::set_point(li(0), li(0), li(0));

    let half_root2 = li(2).sqrt().div(li(2));
    let eye_vector = Tuple::set_vector(li(0), half_root2.neg(), half_root2.neg());
    let normal_vector = Tuple::set_vector(li(0), li(0), li(-1));

    let light_intensity = color(li(1), li(1), li(1));
    let light_position = Tuple::set_point(li(0), li(10), li(-10));
    let point_light = PointLight::set_point_light(light_intensity, light_position);
    let actual = lighting(m, point_light, position, eye_vector, normal_vector).unwrap();

    let expected = color(ls(16364, 10000), ls(16364, 10000), ls(16364, 10000));
    assert!(actual.approx_eq(&expected));
}

#[test]
fn test_lighting_behind_surface() {
    let m = Material::default_material();
    let position = Tuple::set_point(li(0), li(0), li(0));

    let eye_vector = Tuple::set_vector(li(0), li(0), li(-1));
    let normal_vector = Tuple::set_vector(li(0), li(0), li(-1));

    let light_intensity = color(li(1), li(1), li(1));
    let light_position = Tuple::set_point(li(0), li(0), li(10));
    let point_light = PointLight::set_point_light(light_intensity, light_position);
    let actual = lighting(m, point_light, position, eye_vector, normal_vector).unwrap();

    let expected = color(ls(1, 10), ls(1, 10), ls(1, 10));
    assert!(actual.approx_eq(&expected));
}

#[test]
fn test_lighting_light_on_surface_point_fails() {
    let m = Material::default_material();
    let position = Tuple::set_point(li(0), li(0), li(0));
    let eye_vector = Tuple::set_vector(li(0), li(0), li(-1));
    let normal_vector = Tuple::set_vector(li(0), li(0), li(-1));
    let point_light = PointLight::set_point_light(
        color(li(1), li(1), li(1)),
        Tuple::set_point(li(0), li(0), li(0)),
    );
    let actual = lighting(m, point_light, position, eye_vector, normal_vector);
    assert!(matches!(actual, Err(MathError::DegenerateVector)));
}

#[test]
fn test_lighting_oversized_eye_vector_fails() {
    let m = Material::default_material();
    let position = Tuple::set_point(li(0), li(0), li(0));
    let eye_vector = Tuple::set_vector(li(0), li(0), li(-2));
    let normal_vector = Tuple::set_vector(li(0), li(0), li(-1));
    let point_light = PointLight::set_point_light(
        color(li(1), li(1), li(1)),
        Tuple::set_point(li(0), li(0), li(-10)),
    );
    let actual = lighting(m, point_light, position, eye_vector, normal_vector);
    assert!(matches!(actual, Err(MathError::OutOfRange)));
}

#[test]
fn test_default_material_values() {
    let m = Material::default_material();
    assert_eq!(m.ambient.raw, 100_000);
    assert_eq!(m.diffuse.raw, 900_000);
    assert_eq!(m.specular.raw, 900_000);
    assert_eq!(m.shininess, 200);
    assert_eq!(m.color.red.raw, 1_000_000);
    assert!(m.approx_eq(&Material::default_material()));
}
