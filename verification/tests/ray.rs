use tracer::ray::{reflect, Ray, Sphere};
use tracer::scalar::Scalar;
use tracer::tuple::Tuple;
use tracer::MathError;

fn ys(num: i64, den: i64) -> Scalar {
    Scalar::from_ratio(num, den)
}

fn yi(i: i64) -> Scalar {
    Scalar::from_int(i)
}

fn ypoint(x: i64, y: i64, z: i64) -> Tuple {
    Tuple::set_point(yi(x), yi(y), yi(z))
}

fn yvector(x: i64, y: i64, z: i64) -> Tuple {
    Tuple::set_vector(yi(x), yi(y), yi(z))
}

#[test]
fn test_ray_struct() {
    let origin = ypoint(1, 2, 3);
    let direction = yvector(4, 5, 6);
    let ray = Ray::set_ray(direction, origin);

    let expected_origin = ypoint(1, 2, 3);
    let expected_direction = yvector(4, 5, 6);
    assert!(ray.origin.approx_eq(&expected_origin));
    assert!(ray.direction.approx_eq(&expected_direction));
}

#[test]
fn test_calculate_position() {
    let origin = ypoint(2, 3, 4);
    let direction = yvector(1, 0, 0);
    let ray = Ray::set_ray(direction, origin);

    let ray_calc_0 = ypoint(2, 3, 4);
    assert!(ray_calc_0.approx_eq(&ray.calculate_position(yi(0))));

    let ray_calc_1 = ypoint(3, 3, 4);
    assert!(ray_calc_1.approx_eq(&ray.calculate_position(yi(1))));

    let ray_calc_neg_1 = ypoint(1, 3, 4);
    assert!(ray_calc_neg_1.approx_eq(&ray.calculate_position(yi(-1))));

    let ray_calc_25 = Tuple::set_point(ys(9, 2), yi(3), yi(4));
    assert!(ray_calc_25.approx_eq(&ray.calculate_position(ys(5, 2))));
}

#[test]
fn test_intersection_2_points() {
    let test_sphere = Sphere::set_sphere(ypoint(0, 0, 0), yi(1));
    let test_ray = Ray::set_ray(yvector(0, 0, 1), ypoint(0, 0, -5));
    let return_value = Ray::sphere_intersect(&test_ray, &test_sphere);
    assert_eq!(return_value.len(), 2);
    assert_eq!(return_value[0], yi(4));
    assert_eq!(return_value[1], yi(6));
}

#[test]
fn test_intersection_tangent() {
    let test_sphere = Sphere::set_sphere(ypoint(0, 0, 0), yi(1));
    let test_ray = Ray::set_ray(yvector(0, 0, 1), ypoint(0, 1, -5));
    let return_value = Ray::sphere_intersect(&test_ray, &test_sphere);
    assert_eq!(return_value.len(), 2);
    assert_eq!(return_value[0], yi(5));
    assert_eq!(return_value[1], yi(5));
}

#[test]
fn test_intersection_miss() {
    let test_sphere = Sphere::set_sphere(ypoint(0, 0, 0), yi(1));
    let test_ray = Ray::set_ray(yvector(0, 0, 1), ypoint(0, 2, -5));
    let return_value = Ray::sphere_intersect(&test_ray, &test_sphere);
    assert_eq!(return_value.len(), 0);
}

#[test]
fn test_intersection_inside_sphere() {
    let test_sphere = Sphere::set_sphere(ypoint(0, 0, 0), yi(1));
    let test_ray = Ray::set_ray(yvector(0, 0, 1), ypoint(0, 0, 0));
    let return_value = Ray::sphere_intersect(&test_ray, &test_sphere);
    assert_eq!(return_value.len(), 2);
    assert_eq!(return_value[0], yi(-1));
    assert_eq!(return_value[1], yi(1));
}

#[test]
fn test_intersection_behind_ray() {
    let test_sphere = Sphere::set_sphere(ypoint(0, 0, 0), yi(1));
    let test_ray = Ray::set_ray(yvector(0, 0, 1), ypoint(0, 0, 5));
    let return_value = Ray::sphere_intersect(&test_ray, &test_sphere);
    assert_eq!(return_value.len(), 2);
    assert_eq!(return_value[0], yi(-6));
    assert_eq!(return_value[1], yi(-4));
}

#[test]
fn test_sphere_normal_x_axis() {
    let test_sphere = Sphere::set_sphere(ypoint(0, 0, 0), yi(1));
    let actual_value = test_sphere.normal_at(ypoint(1, 0, 0)).unwrap();
    let expected_value = yvector(1, 0, 0);
    assert!(actual_value.approx_eq(&expected_value));
}

#[test]
fn test_sphere_normal_y_axis() {
    let test_sphere = Sphere::set_sphere(ypoint(0, 0, 0), yi(1));
    let actual_value = test_sphere.normal_at(ypoint(0, 1, 0)).unwrap();
    let expected_value = yvector(0, 1, 0);
    assert!(actual_value.approx_eq(&expected_value));
}

#[test]
fn test_sphere_normal_z_axis() {
    let test_sphere = Sphere::set_sphere(ypoint(0, 0, 0), yi(1));
    let actual_value = test_sphere.normal_at(ypoint(0, 0, 1)).unwrap();
    let expected_value = yvector(0, 0, 1);
    assert!(actual_value.approx_eq(&expected_value));
}

#[test]
fn test_sphere_normal_nonaxial() {
    let test_sphere = Sphere::set_sphere(ypoint(0, 0, 0), yi(1));
    let third_of_root3 = yi(3).sqrt().div(yi(3));
    let test_point = Tuple::set_point(third_of_root3, third_of_root3, third_of_root3);
    let actual_value = test_sphere.normal_at(test_point).unwrap();
    let expected_value = Tuple::set_vector(third_of_root3, third_of_root3, third_of_root3);
    assert!(actual_value.approx_eq(&expected_value));
}

#[test]
fn test_sphere_normal_is_normalized() {
    let test_sphere = Sphere::set_sphere(ypoint(0, 0, 0), yi(1));
    let third_of_root3 = yi(3).sqrt().div(yi(3));
    let test_point = Tuple::set_point(third_of_root3, third_of_root3, third_of_root3);
    let actual_value = test_sphere.normal_at(test_point).unwrap();
    let expected_value = actual_value.normalize().unwrap();
    assert!(actual_value.approx_eq(&expected_value));
}

#[test]
fn test_sphere_normal_not_origin() {
    let test_sphere = Sphere::set_sphere(ypoint(0, 1, 0), yi(1));
    let test_point = Tuple::set_point(yi(0), ys(170711, 100000), ys(-70711, 100000));
    let actual_value = test_sphere.normal_at(test_point).unwrap();
    let expected_value = Tuple::set_vector(yi(0), ys(70711, 100000), ys(-70711, 100000));
    assert!(actual_value.approx_eq(&expected_value));
}

#[test]
fn test_sphere_normal_at_center_fails() {
    let test_sphere = Sphere::set_sphere(ypoint(0, 1, 0), yi(1));
    assert!(matches!(test_sphere.normal_at(ypoint(0, 1, 0)), Err(MathError::DegenerateVector)));
}

#[test]
fn test_reflect_flat() {
    let v = yvector(1, -1, 0);
    let n = yvector(0, 1, 0);
    let r = reflect(v, n);
    assert!(r.approx_eq(&yvector(1, 1, 0)));
}
