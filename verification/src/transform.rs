//! Builders for the 4-by-4 transformation matrices a scene is posed with.

use crate::matrix::Matrix;
use crate::scalar::{Scalar, SCALE};
use vstd::prelude::*;

verus! {

/// The translation matrix: the identity with column 3 of rows 0 to 2 set
/// to the offsets.
pub open spec fn spec_translation(x: int, y: int, z: int) -> Seq<Seq<int>> {
    let s = SCALE as int;
    seq![
        seq![s, 0, 0, x],
        seq![0, s, 0, y],
        seq![0, 0, s, z],
        seq![0, 0, 0, s],
    ]
}

/// The scaling matrix: factors on the diagonal.
pub open spec fn spec_scaling(x: int, y: int, z: int) -> Seq<Seq<int>> {
    let s = SCALE as int;
    seq![
        seq![x, 0, 0, 0],
        seq![0, y, 0, 0],
        seq![0, 0, z, 0],
        seq![0, 0, 0, s],
    ]
}

/// The matrix moving points by `(x, y, z)`; free vectors pass unchanged.
pub fn translation(x: Scalar, y: Scalar, z: Scalar) -> (r: Matrix)
    ensures
        r.wf(),
        r.width == 4,
        r.height == 4,
        r@ == spec_translation(x@, y@, z@),
{
    let mut return_matrix = Matrix::identity(4, 4);
    return_matrix.set_element(0, 3, x);
    return_matrix.set_element(1, 3, y);
    return_matrix.set_element(2, 3, z);
    proof {
        assert(return_matrix@ =~~= spec_translation(x@, y@, z@));
    }
    return_matrix
}

/// The matrix scaling points and vectors by `(x, y, z)`.
pub fn scaling(x: Scalar, y: Scalar, z: Scalar) -> (r: Matrix)
    ensures
        r.wf(),
        r.width == 4,
        r.height == 4,
        r@ == spec_scaling(x@, y@, z@),
{
    let mut return_matrix = Matrix::identity(4, 4);
    return_matrix.set_element(0, 0, x);
    return_matrix.set_element(1, 1, y);
    return_matrix.set_element(2, 2, z);
    proof {
        assert(return_matrix@ =~~= spec_scaling(x@, y@, z@));
    }
    return_matrix
}

} // verus!
