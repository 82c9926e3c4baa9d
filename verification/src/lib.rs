//! Geometry and shading core for rendering scenes of spheres lit by point
//! lights.
//!
//! Real quantities are represented in fixed point: a [`scalar::Scalar`] holds
//! `raw` millionths, so the value `1.0` is the raw integer `1_000_000`. Every
//! arithmetic operation states its result exactly, as a rounded integer
//! formula over the raw representations, and the library's contracts and
//! proofs are over those integers.

use vstd::prelude::*;

pub mod color;
pub mod light;
pub mod material;
pub mod matrix;
pub mod ray;
pub mod scalar;
pub mod transform;
pub mod tuple;

verus! {

/// A failure of a core operation, reported as a value so that a caller can
/// skip the affected transform or pixel instead of crashing a render.
#[derive(Clone, Copy, Debug, PartialEq, Eq, Structural)]
pub enum MathError {
    /// A matrix operation was handed operands of incompatible shapes.
    DimensionMismatch,
    /// `invert` was asked to invert a matrix whose determinant is zero.
    NonInvertible,
    /// A direction of zero magnitude cannot be normalized.
    DegenerateVector,
    /// An intermediate value left the representable fixed-point range.
    OutOfRange,
}

} // verus!
