#![allow(non_snake_case)]

use tracer::matrix::{calculate_element_sum, Matrix};
use tracer::scalar::Scalar;
use tracer::tuple::Tuple;
use tracer::MathError;

fn ms(num: i64, den: i64) -> Scalar {
    Scalar::from_ratio(num, den)
}

fn mi(i: i64) -> Scalar {
    Scalar::from_int(i)
}

fn mrows(rows: &[&[i64]]) -> Matrix {
    let mut grid: Vec<Vec<Scalar>> = Vec::new();
    for row in rows {
        let mut out: Vec<Scalar> = Vec::new();
        for value in *row {
            out.push(Scalar::from_int(*value));
        }
        grid.push(out);
    }
    Matrix::set(&grid)
}

#[test]
fn matrix_test_4x4_matrix() {
    let inner_matrix = vec![
        vec![mi(1), mi(2), mi(3), mi(4)],
        vec![ms(11, 2), ms(13, 2), ms(15, 2), ms(17, 2)],
        vec![mi(9), mi(10), mi(11), mi(12)],
        vec![ms(27, 2), ms(29, 2), ms(31, 2), ms(33, 2)],
    ];
    let test_matrix = Matrix::set(&inner_matrix);

    assert_eq!(test_matrix.height, 4);
    assert_eq!(test_matrix.width, 4);
    assert_eq!(test_matrix.get(0, 0), mi(1));
    assert_eq!(test_matrix.get(0, 3), mi(4));
    assert_eq!(test_matrix.get(1, 0), ms(11, 2));
    assert_eq!(test_matrix.get(1, 2), ms(15, 2));
    assert_eq!(test_matrix.get(2, 2), mi(11));
    assert_eq!(test_matrix.get(3, 0), ms(27, 2));
    assert_eq!(test_matrix.get(3, 2), ms(31, 2));
}

#[test]
fn matrix_test_2x2_matrix() {
    let test_matrix = mrows(&[&[-3, 5], &[1, -2]]);
    assert_eq!(test_matrix.height, 2);
    assert_eq!(test_matrix.width, 2);
    assert_eq!(test_matrix.get(0, 0), mi(-3));
    assert_eq!(test_matrix.get(0, 1), mi(5));
    assert_eq!(test_matrix.get(1, 0), mi(1));
    assert_eq!(test_matrix.get(1, 1), mi(-2));
}

#[test]
fn matrix_test_eq_true() {
    let a = mrows(&[&[-3, 5], &[1, -2]]);
    let b = mrows(&[&[-3, 5], &[1, -2]]);
    assert_eq!(a.approx_eq(&b), true);
}

#[test]
fn matrix_test_eq_false_elements() {
    let a = mrows(&[&[-3, 6], &[1, -2]]);
    let b = mrows(&[&[-3, 5], &[1, -2]]);
    assert_eq!(a.approx_eq(&b), false);
}

#[test]
fn matrix_test_ineq_elements() {
    let a = mrows(&[&[-3, 6], &[1, -2]]);
    let b = mrows(&[&[-3, 5], &[1, -2]]);
    assert_eq!(!a.approx_eq(&b), true);
}

#[test]
fn matrix_test_eq_false_dimensions() {
    let a = mrows(&[&[-3, 5, 1], &[1, -2, 1]]);
    let b = mrows(&[&[-3, 5], &[1, -2]]);
    assert_eq!(a.approx_eq(&b), false);
}

#[test]
fn matrix_test_calculate_element_sum() {
    let a = vec![mi(-3), mi(5), mi(1)];
    let b = vec![mi(3), mi(2), mi(1)];
    let expected_sum = mi(2);
    let actual_sum = calculate_element_sum(&a, &b);
    assert_eq!(actual_sum, expected_sum);
}

#[test]
fn test_get_row() {
    let a = mrows(&[&[-3, 5, 1], &[1, 2, 1]]);
    let expected_vec = vec![mi(-3), mi(5), mi(1)];
    let actual_vec = a.get_row(0);
    assert_eq!(actual_vec, expected_vec);
}

#[test]
fn test_get_col() {
    let a = mrows(&[&[3, 5], &[2, 1], &[1, -2]]);
    let expected_vec = vec![mi(3), mi(2), mi(1)];
    let actual_vec = a.get_col(0);
    assert_eq!(actual_vec, expected_vec);
}

#[test]
fn test_matrix_multiplication() {
    let a = mrows(&[&[-3, 5, 1], &[1, 2, 1]]);
    let b = mrows(&[&[3, 5], &[2, 1], &[1, -2]]);
    let c = mrows(&[&[2, -12], &[8, 5]]);
    let actual_sum = a.mul(&b).unwrap();
    assert!(actual_sum.approx_eq(&c));
}

#[test]
fn test_matrix_multiplication_tuple() {
    let a = mrows(&[&[1, 2, 3, 4], &[2, 4, 4, 2], &[8, 6, 4, 1], &[0, 0, 0, 1]]);
    let b = Tuple::set_tuple(vec![mi(1), mi(2), mi(3), mi(1)]);
    let c = Tuple::set_tuple(vec![mi(18), mi(24), mi(33), mi(1)]);
    let actual_sum = a.mul_tuple(&b);
    assert!(actual_sum.approx_eq(&c));
}

#[test]
fn test_matrix_identity() {
    let expected = mrows(&[&[1, 0, 0, 0], &[0, 1, 0, 0], &[0, 0, 1, 0], &[0, 0, 0, 1]]);
    let actual = Matrix::identity(4, 4);
    assert!(actual.approx_eq(&expected));
}

#[test]
fn test_matrix_transpose_4_x_4() {
    let a = mrows(&[&[0, 9, 3, 0], &[9, 8, 0, 8], &[1, 8, 5, 3], &[0, 0, 5, 8]]);
    let expected = mrows(&[&[0, 9, 1, 0], &[9, 8, 8, 0], &[3, 0, 5, 5], &[0, 8, 3, 8]]);
    assert!(a.transpose().approx_eq(&expected));
}

#[test]
fn test_matrix_transpose_3_x_2() {
    let a = mrows(&[&[0, 9], &[9, 8], &[1, 8]]);
    let expected = mrows(&[&[0, 9, 1], &[9, 8, 8]]);
    assert!(a.transpose().approx_eq(&expected));
}

#[test]
fn test_matrix_determinant_2_x_2() {
    let a = mrows(&[&[1, 5], &[-3, 2]]);
    assert_eq!(a.determinant(), mi(17));
}

#[test]
fn test_calculate_minor_3_x_3() {
    let a = mrows(&[&[3, 5, 0], &[2, -1, -7], &[6, -1, 5]]);
    let b = a.submatrix(1, 0);
    assert_eq!(b.determinant(), mi(25));
    assert_eq!(a.minor(1, 0), mi(25));
}

#[test]
fn test_calculate_cofactor_3_x_3() {
    let a = mrows(&[&[3, 5, 0], &[2, -1, -7], &[6, -1, 5]]);
    assert_eq!(a.minor(0, 0), mi(-12));
    assert_eq!(a.cofactor(0, 0), mi(-12));
    assert_eq!(a.minor(1, 0), mi(25));
    assert_eq!(a.cofactor(1, 0), mi(-25));
}

#[test]
fn test_calculate_determinant_3_x_3() {
    let a = mrows(&[&[1, 2, 6], &[-5, 8, -4], &[2, 6, 4]]);
    assert_eq!(a.cofactor(0, 0), mi(56));
    assert_eq!(a.cofactor(0, 1), mi(12));
    assert_eq!(a.cofactor(0, 2), mi(-46));
    assert_eq!(a.determinant(), mi(-196));
}

#[test]
fn test_calculate_determinant_4_x_4() {
    let a = mrows(&[&[-2, -8, 3, 5], &[-3, 1, 7, 3], &[1, 2, -9, 6], &[-6, 7, 7, -9]]);
    assert_eq!(a.cofactor(0, 0), mi(690));
    assert_eq!(a.cofactor(0, 1), mi(447));
    assert_eq!(a.cofactor(0, 2), mi(210));
    assert_eq!(a.cofactor(0, 3), mi(51));
    assert_eq!(a.determinant(), mi(-4071));
}

#[test]
fn test_calculate_is_invertable() {
    let a = mrows(&[&[6, 4, 4, 4], &[5, 5, 7, 6], &[4, -9, 3, -7], &[9, 1, 7, -6]]);
    let b = mrows(&[&[-4, 2, -2, -3], &[9, 6, 2, 6], &[0, -5, 1, -5], &[0, 0, 0, 0]]);
    assert_eq!(a.determinant(), mi(-2120));
    assert_eq!(a.is_invertable(), true);

    assert_eq!(b.determinant(), mi(0));
    assert_eq!(b.is_invertable(), false);
}

#[test]
fn test_is_invertable_4_x_4() {
    let a = mrows(&[&[-5, 2, 6, -8], &[1, -5, 1, 8], &[7, 7, -6, -7], &[1, -3, 7, 4]]);
    let b = mrows(&[&[-4, 2, -2, -3], &[9, 6, 2, 6], &[0, -5, 1, -5], &[0, 0, 0, 0]]);
    assert_eq!(a.determinant(), mi(532));
    assert_eq!(a.is_invertable(), true);

    assert_eq!(b.determinant(), mi(0));
    assert_eq!(b.is_invertable(), false);
}

#[test]
fn test_invert_4_x_4() {
    let a = mrows(&[&[-5, 2, 6, -8], &[1, -5, 1, 8], &[7, 7, -6, -7], &[1, -3, 7, 4]]);
    let b = Matrix::set(
        &vec![
            vec![ms(21805, 100000), ms(45113, 100000), ms(24060, 100000), ms(-4511, 100000)],
            vec![ms(-80827, 100000), ms(-145677, 100000), ms(-44361, 100000), ms(52068, 100000)],
            vec![ms(-7895, 100000), ms(-22368, 100000), ms(-5263, 100000), ms(19737, 100000)],
            vec![ms(-52256, 100000), ms(-81391, 100000), ms(-30075, 100000), ms(30639, 100000)],
        ],
    );
    assert!(a.invert().unwrap().approx_eq(&b));
}

#[test]
fn Matrix_test_4x4_matrix() {
    let inner_matrix = vec![
        vec![mi(1), mi(2), mi(3), mi(4)],
        vec![ms(11, 2), ms(13, 2), ms(15, 2), ms(17, 2)],
        vec![mi(9), mi(10), mi(11), mi(12)],
        vec![ms(27, 2), ms(29, 2), ms(31, 2), ms(33, 2)],
    ];
    let test_matrix = Matrix::set(&inner_matrix);

    assert_eq!(test_matrix.height, 4);
    assert_eq!(test_matrix.width, 4);
    assert_eq!(test_matrix.get(0, 0), mi(1));
    assert_eq!(test_matrix.get(0, 3), mi(4));
    assert_eq!(test_matrix.get(1, 0), ms(11, 2));
    assert_eq!(test_matrix.get(1, 2), ms(15, 2));
    assert_eq!(test_matrix.get(2, 2), mi(11));
    assert_eq!(test_matrix.get(3, 0), ms(27, 2));
    assert_eq!(test_matrix.get(3, 2), ms(31, 2));
}

#[test]
fn Matrix_test_2x2_matrix() {
    let test_matrix = mrows(&[&[-3, 5], &[1, -2]]);
    assert_eq!(test_matrix.height, 2);
    assert_eq!(test_matrix.width, 2);
    assert_eq!(test_matrix.get(0, 0), mi(-3));
    assert_eq!(test_matrix.get(0, 1), mi(5));
    assert_eq!(test_matrix.get(1, 0), mi(1));
    assert_eq!(test_matrix.get(1, 1), mi(-2));
}

#[test]
fn Matrix_test_eq_true() {
    let a = mrows(&[&[-3, 5], &[1, -2]]);
    let b = mrows(&[&[-3, 5], &[1, -2]]);
    assert_eq!(a.approx_eq(&b), true);
}

#[test]
fn Matrix_test_eq_false_elements() {
    let a = mrows(&[&[-3, 6], &[1, -2]]);
    let b = mrows(&[&[-3, 5], &[1, -2]]);
    assert_eq!(a.approx_eq(&b), false);
}

#[test]
fn Matrix_test_ineq_elements() {
    let a = mrows(&[&[-3, 6], &[1, -2]]);
    let b = mrows(&[&[-3, 5], &[1, -2]]);
    assert_eq!(!a.approx_eq(&b), true);
}

#[test]
fn Matrix_test_eq_false_dimensions() {
    let a = mrows(&[&[-3, 5, 1], &[1, -2, 1]]);
    let b = mrows(&[&[-3, 5], &[1, -2]]);
    assert_eq!(a.approx_eq(&b), false);
}

#[test]
fn Matrix_test_calculate_element_sum() {
    let a = vec![mi(-3), mi(5), mi(1)];
    let b = vec![mi(3), mi(2), mi(1)];
    let expected_sum = mi(2);
    let actual_sum = calculate_element_sum(&a, &b);
    assert_eq!(actual_sum, expected_sum);
}

#[test]
fn test_mul_dimension_mismatch() {
    let a = mrows(&[&[1, 2], &[3, 4]]);
    let b = mrows(&[&[1, 2], &[3, 4], &[5, 6]]);
    assert!(matches!(a.mul(&b), Err(MathError::DimensionMismatch)));
}

#[test]
fn test_invert_singular() {
    let b = mrows(&[&[-4, 2, -2, -3], &[9, 6, 2, 6], &[0, -5, 1, -5], &[0, 0, 0, 0]]);
    assert!(matches!(b.invert(), Err(MathError::NonInvertible)));
}
