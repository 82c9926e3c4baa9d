use tracer::color::{color, Color};
use tracer::scalar::Scalar;

fn cs(num: i64, den: i64) -> Scalar {
    Scalar::from_ratio(num, den)
}

#[test]
fn test_color_constructor() {
    let c = color(cs(-1, 2), cs(4, 10), cs(17, 10));
    assert_eq!(c.red, cs(-1, 2));
    assert_eq!(c.green, cs(4, 10));
    assert_eq!(c.blue, cs(17, 10));
}

#[test]
fn test_adding_colors() {
    let a = color(cs(9, 10), cs(6, 10), cs(75, 100));
    let b = color(cs(7, 10), cs(1, 10), cs(25, 100));
    let expected = color(cs(16, 10), cs(7, 10), Scalar::from_int(1));
    let actual = a.add(b);
    assert!(actual.approx_eq(&expected));
}

#[test]
fn test_subtracting_colors() {
    let a = color(cs(9, 10), cs(6, 10), cs(75, 100));
    let b = color(cs(7, 10), cs(1, 10), cs(25, 100));
    let expected = color(cs(2, 10), cs(5, 10), cs(5, 10));
    let actual = a.sub(b);
    assert!(actual.approx_eq(&expected));
}

#[test]
fn test_multiplying_colors_by_constants() {
    let a = color(cs(2, 10), cs(3, 10), cs(4, 10));
    let expected = color(cs(4, 10), cs(6, 10), cs(8, 10));
    let actual = a.scale(Scalar::from_int(2));
    assert!(actual.approx_eq(&expected));
}

#[test]
fn test_multiplying_colors_by_colors() {
    let a = color(Scalar::from_int(1), cs(2, 10), cs(4, 10));
    let b = color(cs(9, 10), Scalar::from_int(1), cs(1, 10));
    let expected = color(cs(9, 10), cs(2, 10), cs(4, 100));
    let actual = a.mul(b);
    assert!(actual.approx_eq(&expected));
}

#[test]
fn test_black_is_zero() {
    let black = Color::create_black();
    assert_eq!(black.red.raw, 0);
    assert_eq!(black.green.raw, 0);
    assert_eq!(black.blue.raw, 0);
}
