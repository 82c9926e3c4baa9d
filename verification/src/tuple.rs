//! Homogeneous 4-tuples: points (`w == 1.0`) and free vectors (`w == 0.0`).

use crate::scalar::{
    div_round, is_sqrt_of, isqrt, lemma_div_round_close, lemma_isqrt_is, lemma_rmul_bound, rdiv,
    rmul, sabs, Scalar, SCALE,
};
use crate::MathError;
use vstd::prelude::*;

verus! {

/// Absolute tolerance for tuple comparison: 0.0001.
pub const TUPLE_EPS: i64 = 100;

/// Components handed to `magnitude` and `normalize` must stay below this
/// raw bound so that the sum of four squares fits the machine.
pub const MAG_LIMIT: i64 = 4_000_000_000_000_000_000;

/// Components handed to `dot` and `cross` must stay below this raw bound
/// (the value one million) so that products of pairs fit the machine.
pub const MUL_LIMIT: i64 = 1_000_000_000_000;

/// The mathematical content of a tuple: its four raw components.
pub struct TupleView {
    pub x: int,
    pub y: int,
    pub z: int,
    pub w: int,
}

/// All four components within `bound` in magnitude.
pub open spec fn in_range(a: TupleView, bound: int) -> bool {
    &&& sabs(a.x) <= bound
    &&& sabs(a.y) <= bound
    &&& sabs(a.z) <= bound
    &&& sabs(a.w) <= bound
}

/// All four components representable as raw `i64` values.
pub open spec fn fits_raw(a: TupleView) -> bool {
    &&& -0x7fff_ffff_ffff_ffff <= a.x <= 0x7fff_ffff_ffff_ffff
    &&& -0x7fff_ffff_ffff_ffff <= a.y <= 0x7fff_ffff_ffff_ffff
    &&& -0x7fff_ffff_ffff_ffff <= a.z <= 0x7fff_ffff_ffff_ffff
    &&& -0x7fff_ffff_ffff_ffff <= a.w <= 0x7fff_ffff_ffff_ffff
}

pub open spec fn spec_add(a: TupleView, b: TupleView) -> TupleView {
    TupleView { x: a.x + b.x, y: a.y + b.y, z: a.z + b.z, w: a.w + b.w }
}

pub open spec fn spec_sub(a: TupleView, b: TupleView) -> TupleView {
    TupleView { x: a.x - b.x, y: a.y - b.y, z: a.z - b.z, w: a.w - b.w }
}

pub open spec fn spec_neg(a: TupleView) -> TupleView {
    TupleView { x: -a.x, y: -a.y, z: -a.z, w: -a.w }
}

/// Each component multiplied by the scalar with raw value `k`.
pub open spec fn spec_scale(a: TupleView, k: int) -> TupleView {
    TupleView { x: rmul(a.x, k), y: rmul(a.y, k), z: rmul(a.z, k), w: rmul(a.w, k) }
}

/// Each component divided by the scalar with raw value `k`.
pub open spec fn spec_divide(a: TupleView, k: int) -> TupleView {
    TupleView { x: rdiv(a.x, k), y: rdiv(a.y, k), z: rdiv(a.z, k), w: rdiv(a.w, k) }
}

/// The dot product over all four components.
pub open spec fn spec_dot(a: TupleView, b: TupleView) -> int {
    rmul(a.x, b.x) + rmul(a.y, b.y) + rmul(a.z, b.z) + rmul(a.w, b.w)
}

/// The cross product of the spatial components; the result is a vector.
pub open spec fn spec_cross(a: TupleView, b: TupleView) -> TupleView {
    TupleView {
        x: rmul(a.y, b.z) - rmul(a.z, b.y),
        y: rmul(a.z, b.x) - rmul(a.x, b.z),
        z: rmul(a.x, b.y) - rmul(a.y, b.x),
        w: 0,
    }
}

/// The exact sum of the squared raw components. Note the scale: this is
/// `SCALE * SCALE` times the squared value magnitude.
pub open spec fn sum_sq(a: TupleView) -> int {
    a.x * a.x + a.y * a.y + a.z * a.z + a.w * a.w
}

/// Raw magnitude: the integer square root of the summed squares lands back
/// on the scalar scale.
pub open spec fn spec_magnitude(a: TupleView) -> int {
    isqrt(sum_sq(a))
}

/// Each component divided by the magnitude. Meaningful for nonzero tuples.
pub open spec fn spec_normalize(a: TupleView) -> TupleView {
    spec_divide(a, spec_magnitude(a))
}

pub open spec fn is_zero(a: TupleView) -> bool {
    a.x == 0 && a.y == 0 && a.z == 0 && a.w == 0
}

/// Componentwise agreement within the tuple tolerance.
pub open spec fn spec_tuple_approx(a: TupleView, b: TupleView) -> bool {
    &&& sabs(a.x - b.x) <= TUPLE_EPS
    &&& sabs(a.y - b.y) <= TUPLE_EPS
    &&& sabs(a.z - b.z) <= TUPLE_EPS
    &&& sabs(a.w - b.w) <= TUPLE_EPS
}

/// A point or direction in homogeneous coordinates.
#[derive(Clone, Copy, Debug)]
pub struct Tuple {
    pub x: Scalar,
    pub y: Scalar,
    pub z: Scalar,
    pub w: Scalar,
}

impl View for Tuple {
    type V = TupleView;

    open spec fn view(&self) -> TupleView {
        TupleView { x: self.x@, y: self.y@, z: self.z@, w: self.w@ }
    }
}

impl Tuple {
    /// Whether the tuple is a free vector (`w == 0.0`).
    pub fn is_vector(&self) -> (r: bool)
        ensures
            r == (self@.w == 0),
    {
        self.w.raw == 0
    }

    /// Whether the tuple is a point (`w == 1.0`).
    pub fn is_point(&self) -> (r: bool)
        ensures
            r == (self@.w == SCALE),
    {
        self.w.raw == SCALE
    }

    pub fn x(&self) -> (r: Scalar)
        ensures
            r@ == self@.x,
    {
        self.x
    }

    pub fn y(&self) -> (r: Scalar)
        ensures
            r@ == self@.y,
    {
        self.y
    }

    pub fn z(&self) -> (r: Scalar)
        ensures
            r@ == self@.z,
    {
        self.z
    }

    pub fn w(&self) -> (r: Scalar)
        ensures
            r@ == self@.w,
    {
        self.w
    }

    /// A free vector: `w` is set to `0.0`.
    pub fn set_vector(x: Scalar, y: Scalar, z: Scalar) -> (r: Tuple)
        ensures
            r@ == (TupleView { x: x@, y: y@, z: z@, w: 0 }),
    {
        Tuple { x, y, z, w: Scalar { raw: 0 } }
    }

    /// A point: `w` is set to `1.0`.
    pub fn set_point(x: Scalar, y: Scalar, z: Scalar) -> (r: Tuple)
        ensures
            r@ == (TupleView { x: x@, y: y@, z: z@, w: SCALE as int }),
    {
        Tuple { x, y, z, w: Scalar { raw: SCALE } }
    }

    /// A tuple from its four components, given as a vector of length 4.
    pub fn set_tuple(v: Vec<Scalar>) -> (r: Tuple)
        requires
            v@.len() == 4,
        ensures
            r@ == (TupleView { x: v@[0]@, y: v@[1]@, z: v@[2]@, w: v@[3]@ }),
    {
        Tuple { x: v[0], y: v[1], z: v[2], w: v[3] }
    }

    /// Exact componentwise sum.
    pub fn add(self, rhs: Tuple) -> (r: Tuple)
        requires
            fits_raw(spec_add(self@, rhs@)),
        ensures
            r@ == spec_add(self@, rhs@),
    {
        Tuple {
            x: self.x.add(rhs.x),
            y: self.y.add(rhs.y),
            z: self.z.add(rhs.z),
            w: self.w.add(rhs.w),
        }
    }

    /// Exact componentwise difference. Subtracting two points yields a
    /// vector; subtracting a vector from a point yields a point.
    pub fn sub(self, rhs: Tuple) -> (r: Tuple)
        requires
            fits_raw(spec_sub(self@, rhs@)),
        ensures
            r@ == spec_sub(self@, rhs@),
    {
        Tuple {
            x: self.x.sub(rhs.x),
            y: self.y.sub(rhs.y),
            z: self.z.sub(rhs.z),
            w: self.w.sub(rhs.w),
        }
    }

    /// Exact componentwise negation.
    pub fn neg(self) -> (r: Tuple)
        requires
            fits_raw(spec_neg(self@)),
        ensures
            r@ == spec_neg(self@),
    {
        Tuple { x: self.x.neg(), y: self.y.neg(), z: self.z.neg(), w: self.w.neg() }
    }

    /// Each component multiplied by `k`, rounded.
    pub fn scale(self, k: Scalar) -> (r: Tuple)
        requires
            fits_raw(spec_scale(self@, k@)),
        ensures
            r@ == spec_scale(self@, k@),
    {
        Tuple { x: self.x.mul(k), y: self.y.mul(k), z: self.z.mul(k), w: self.w.mul(k) }
    }

    /// Each component divided by `k`, rounded. `k` must be nonzero.
    pub fn divide(self, k: Scalar) -> (r: Tuple)
        requires
            k@ != 0,
            fits_raw(spec_divide(self@, k@)),
        ensures
            r@ == spec_divide(self@, k@),
    {
        Tuple { x: self.x.div(k), y: self.y.div(k), z: self.z.div(k), w: self.w.div(k) }
    }

    /// The magnitude: square root of the sum of the four squared
    /// components.
    pub fn magnitude(&self) -> (r: Scalar)
        requires
            in_range(self@, MAG_LIMIT as int),
        ensures
            r@ == spec_magnitude(self@),
            is_sqrt_of(sum_sq(self@), r@),
    {
        let m: i64 = raw_magnitude(self.x.raw, self.y.raw, self.z.raw, self.w.raw);
        Scalar { raw: m }
    }

    /// The tuple scaled to magnitude one by dividing each component by the
    /// magnitude. A zero tuple has no direction: that is the one error.
    pub fn normalize(&self) -> (r: Result<Tuple, MathError>)
        requires
            in_range(self@, MAG_LIMIT as int),
        ensures
            is_zero(self@) <==> r == Result::<Tuple, MathError>::Err(MathError::DegenerateVector),
            match r {
                Ok(u) => u@ == spec_normalize(self@) && in_range(u@, SCALE as int),
                Err(e) => e == MathError::DegenerateVector,
            },
    {
        let m: i64 = raw_magnitude(self.x.raw, self.y.raw, self.z.raw, self.w.raw);
        if m == 0 {
            proof {
                lemma_zero_magnitude(self@);
            }
            return Err(MathError::DegenerateVector);
        }
        proof {
            lemma_zero_magnitude(self@);
            let a = self@;
            assert(a.x * a.x <= sum_sq(a) && a.y * a.y <= sum_sq(a) && a.z * a.z <= sum_sq(a)
                && a.w * a.w <= sum_sq(a)) by (nonlinear_arith);
        }
        let x: i64 = component_over_magnitude(self.x.raw, m, Ghost(sum_sq(self@)));
        let y: i64 = component_over_magnitude(self.y.raw, m, Ghost(sum_sq(self@)));
        let z: i64 = component_over_magnitude(self.z.raw, m, Ghost(sum_sq(self@)));
        let w: i64 = component_over_magnitude(self.w.raw, m, Ghost(sum_sq(self@)));
        Ok(
            Tuple {
                x: Scalar { raw: x },
                y: Scalar { raw: y },
                z: Scalar { raw: z },
                w: Scalar { raw: w },
            },
        )
    }

    /// The dot product of two tuples.
    pub fn dot(a: Tuple, b: Tuple) -> (r: Scalar)
        requires
            in_range(a@, MUL_LIMIT as int),
            in_range(b@, MUL_LIMIT as int),
        ensures
            r@ == spec_dot(a@, b@),
    {
        proof {
            lemma_rmul_bound(a@.x, b@.x, MUL_LIMIT as int, MUL_LIMIT as int);
            lemma_rmul_bound(a@.y, b@.y, MUL_LIMIT as int, MUL_LIMIT as int);
            lemma_rmul_bound(a@.z, b@.z, MUL_LIMIT as int, MUL_LIMIT as int);
            lemma_rmul_bound(a@.w, b@.w, MUL_LIMIT as int, MUL_LIMIT as int);
        }
        let xp = a.x.mul(b.x);
        let yp = a.y.mul(b.y);
        let zp = a.z.mul(b.z);
        let wp = a.w.mul(b.w);
        xp.add(yp).add(zp).add(wp)
    }

    /// The cross product of the spatial components; the result is a vector.
    pub fn cross(a: Tuple, b: Tuple) -> (r: Tuple)
        requires
            in_range(a@, MUL_LIMIT as int),
            in_range(b@, MUL_LIMIT as int),
        ensures
            r@ == spec_cross(a@, b@),
    {
        proof {
            lemma_rmul_bound(a@.y, b@.z, MUL_LIMIT as int, MUL_LIMIT as int);
            lemma_rmul_bound(a@.z, b@.y, MUL_LIMIT as int, MUL_LIMIT as int);
            lemma_rmul_bound(a@.z, b@.x, MUL_LIMIT as int, MUL_LIMIT as int);
            lemma_rmul_bound(a@.x, b@.z, MUL_LIMIT as int, MUL_LIMIT as int);
            lemma_rmul_bound(a@.x, b@.y, MUL_LIMIT as int, MUL_LIMIT as int);
            lemma_rmul_bound(a@.y, b@.x, MUL_LIMIT as int, MUL_LIMIT as int);
        }
        let x = a.y.mul(b.z).sub(a.z.mul(b.y));
        let y = a.z.mul(b.x).sub(a.x.mul(b.z));
        let z = a.x.mul(b.y).sub(a.y.mul(b.x));
        Tuple::set_vector(x, y, z)
    }

    /// Componentwise agreement within the tuple tolerance of 0.0001.
    pub fn approx_eq(&self, other: &Tuple) -> (r: bool)
        ensures
            r == spec_tuple_approx(self@, other@),
    {
        let eps = Scalar { raw: TUPLE_EPS };
        self.x.approx_eq(other.x, eps) && self.y.approx_eq(other.y, eps) && self.z.approx_eq(
            other.z,
            eps,
        ) && self.w.approx_eq(other.w, eps)
    }
}

/// The magnitude is zero exactly on the zero tuple.
proof fn lemma_zero_magnitude(a: TupleView)
    requires
        is_sqrt_of(sum_sq(a), spec_magnitude(a)),
    ensures
        spec_magnitude(a) == 0 <==> is_zero(a),
{
    assert(a.x * a.x >= 0 && a.y * a.y >= 0 && a.z * a.z >= 0 && a.w * a.w >= 0)
        by (nonlinear_arith);
    if is_zero(a) {
        assert(sum_sq(a) == 0);
        lemma_isqrt_is(0, 0);
    } else {
        assert(sum_sq(a) >= 1) by (nonlinear_arith)
            requires
                !is_zero(a),
        ;
        if spec_magnitude(a) == 0 {
            assert((0int + 1) * (0int + 1) == 1);
            assert(sum_sq(a) < 1);
        }
    }
}

/// Computes the integer square root of the sum of four squares.
fn raw_magnitude(x: i64, y: i64, z: i64, w: i64) -> (r: i64)
    requires
        sabs(x as int) <= MAG_LIMIT,
        sabs(y as int) <= MAG_LIMIT,
        sabs(z as int) <= MAG_LIMIT,
        sabs(w as int) <= MAG_LIMIT,
    ensures
        r as int == isqrt(
            (x as int) * (x as int) + (y as int) * (y as int) + (z as int) * (z as int) + (
            w as int) * (w as int),
        ),
        is_sqrt_of(
            (x as int) * (x as int) + (y as int) * (y as int) + (z as int) * (z as int) + (
            w as int) * (w as int),
            r as int,
        ),
{
    proof {
        lemma_square_in_bound(x as int);
        lemma_square_in_bound(y as int);
        lemma_square_in_bound(z as int);
        lemma_square_in_bound(w as int);
    }
    let xx: i128 = (x as i128) * (x as i128);
    let yy: i128 = (y as i128) * (y as i128);
    let zz: i128 = (z as i128) * (z as i128);
    let ww: i128 = (w as i128) * (w as i128);
    let sum: i128 = xx + yy + zz + ww;
    let root: u128 = crate::scalar::isqrt_u128(sum as u128);
    proof {
        lemma_isqrt_is(sum as int, root as int);
        assert(root <= 0x7fff_ffff_ffff_ffff) by (nonlinear_arith)
            requires
                (root as int) * (root as int) <= sum as int,
                sum as int <= 4 * (MAG_LIMIT as int) * (MAG_LIMIT as int),
                root >= 0,
        ;
    }
    root as i64
}

/// A square of a bounded integer is nonnegative and bounded.
proof fn lemma_square_in_bound(x: int)
    requires
        sabs(x) <= MAG_LIMIT,
    ensures
        0 <= x * x <= (MAG_LIMIT as int) * (MAG_LIMIT as int),
{
    assert(0 <= x * x <= (MAG_LIMIT as int) * (MAG_LIMIT as int)) by (nonlinear_arith)
        requires
            sabs(x) <= MAG_LIMIT,
    ;
}

/// Divides one component by the magnitude of its tuple. Because no
/// component exceeds the magnitude, the quotient never exceeds one.
fn component_over_magnitude(x: i64, m: i64, total: Ghost<int>) -> (r: i64)
    requires
        1 <= m,
        (x as int) * (x as int) <= total@,
        is_sqrt_of(total@, m as int),
    ensures
        r as int == rdiv(x as int, m as int),
        sabs(r as int) <= SCALE,
{
    proof {
        lemma_component_le_magnitude(x as int, total@, m as int);
        lemma_unit_quotient(x as int, m as int);
    }
    crate::scalar::ratio_raw(x, m)
}

/// A component of a sum of squares is bounded by the root of the sum.
proof fn lemma_component_le_magnitude(x: int, n: int, r: int)
    requires
        x * x <= n,
        is_sqrt_of(n, r),
    ensures
        sabs(x) <= r,
{
    assert(sabs(x) <= r) by (nonlinear_arith)
        requires
            x * x <= n,
            0 <= r,
            n < (r + 1) * (r + 1),
    ;
}

/// Dividing a value by something at least as large yields at most one:
/// `|x| <= m` gives `|rdiv(x, m)| <= SCALE`.
proof fn lemma_unit_quotient(x: int, m: int)
    requires
        sabs(x) <= m,
        1 <= m,
    ensures
        sabs(rdiv(x, m)) <= SCALE,
{
    let s = SCALE as int;
    let q = rdiv(x, m);
    lemma_div_round_close(x * s, m);
    assert(sabs(x * s) <= m * s) by (nonlinear_arith)
        requires
            sabs(x) <= m,
            s > 0,
    ;
    assert(2 * sabs(m * q) <= 2 * (m * s) + m);
    assert(sabs(m * q) == m * sabs(q)) by (nonlinear_arith)
        requires
            m > 0,
    ;
    assert(sabs(q) <= s) by (nonlinear_arith)
        requires
            2 * (m * sabs(q)) <= 2 * (m * s) + m,
            m >= 1,
            s >= 1,
            0 <= sabs(q),
    ;
}

/// Four absolute values obey the Cauchy bound against the sum of squares.
proof fn lemma_cauchy4(a: int, b: int, c: int, d: int)
    ensures
        (sabs(a) + sabs(b) + sabs(c) + sabs(d)) * (sabs(a) + sabs(b) + sabs(c) + sabs(d)) <= 4 * (a
            * a + b * b + c * c + d * d),
{
    let p = sabs(a);
    let q = sabs(b);
    let r = sabs(c);
    let s = sabs(d);
    assert(p * p == a * a) by (nonlinear_arith)
        requires
            p == a || p == -a,
    ;
    assert(q * q == b * b) by (nonlinear_arith)
        requires
            q == b || q == -b,
    ;
    assert(r * r == c * c) by (nonlinear_arith)
        requires
            r == c || r == -c,
    ;
    assert(s * s == d * d) by (nonlinear_arith)
        requires
            s == d || s == -d,
    ;
    assert((p + q + r + s) * (p + q + r + s) <= 4 * (p * p + q * q + r * r + s * s))
        by (nonlinear_arith)
        requires
            p >= 0 && q >= 0 && r >= 0 && s >= 0,
    ;
}

/// Expanding one component of the normalization: with `m * qi == vi * s +
/// di` and `ci == vi * di`, squaring both sides gives the identity below.
proof fn lemma_scaled_square(m: int, qi: int, vi: int, s: int, di: int, ci: int)
    requires
        m * qi == vi * s + di,
        ci == vi * di,
    ensures
        m * m * (qi * qi) == s * s * (vi * vi) + 2 * s * ci + di * di,
{
    let a = m * qi;
    assert(a * a == m * m * (qi * qi)) by (nonlinear_arith)
        requires
            a == m * qi,
    ;
    assert(a * a == s * s * (vi * vi) + 2 * s * ci + di * di) by (nonlinear_arith)
        requires
            a == vi * s + di,
            ci == vi * di,
    ;
}

/// The squared magnitude of a normalized tuple lies within 50 millionths
/// of one, provided the tuple's own magnitude is at least 0.04.
proof fn lemma_norm_sq_bounds(v: TupleView, m: int)
    requires
        is_sqrt_of(sum_sq(v), m),
        m >= 40_000,
    ensures
        (SCALE - 50) * (SCALE - 50) <= sum_sq(spec_divide(v, m)),
        sum_sq(spec_divide(v, m)) <= (SCALE + 50) * (SCALE + 50),
{
    let s = SCALE as int;
    let sum = sum_sq(v);
    let u = spec_divide(v, m);
    let qx = u.x;
    let qy = u.y;
    let qz = u.z;
    let qw = u.w;
    assert(qx == div_round(v.x * s, m) && qy == div_round(v.y * s, m) && qz == div_round(
        v.z * s,
        m,
    ) && qw == div_round(v.w * s, m));
    let dx = m * qx - v.x * s;
    let dy = m * qy - v.y * s;
    let dz = m * qz - v.z * s;
    let dw = m * qw - v.w * s;
    lemma_div_round_close(v.x * s, m);
    lemma_div_round_close(v.y * s, m);
    lemma_div_round_close(v.z * s, m);
    lemma_div_round_close(v.w * s, m);
    let h = m / 2;
    assert(0 <= h && 2 * h <= m && m <= 2 * h + 1);
    assert(-h <= dx <= h && -h <= dy <= h && -h <= dz <= h && -h <= dw <= h);
    let q = sum_sq(u);
    // Expand m^2 * q_i^2 == (v_i s + d_i)^2 for each component.
    let cx = v.x * dx;
    let cy = v.y * dy;
    let cz = v.z * dz;
    let cw = v.w * dw;
    lemma_scaled_square(m, qx, v.x, s, dx, cx);
    lemma_scaled_square(m, qy, v.y, s, dy, cy);
    lemma_scaled_square(m, qz, v.z, s, dz, cz);
    lemma_scaled_square(m, qw, v.w, s, dw, cw);
    // Sum the four expansions.
    let crs = cx + cy + cz + cw;
    let errs = dx * dx + dy * dy + dz * dz + dw * dw;
    assert(m * m * q == m * m * (qx * qx) + m * m * (qy * qy) + m * m * (qz * qz) + m * m * (qw
        * qw)) by (nonlinear_arith)
        requires
            q == qx * qx + qy * qy + qz * qz + qw * qw,
    ;
    assert(s * s * sum == s * s * (v.x * v.x) + s * s * (v.y * v.y) + s * s * (v.z * v.z) + s * s
        * (v.w * v.w)) by (nonlinear_arith)
        requires
            sum == v.x * v.x + v.y * v.y + v.z * v.z + v.w * v.w,
    ;
    assert(m * m * q == s * s * sum + 2 * s * crs + errs);
    // Bound the cross terms: |crs| <= m * (m + 1).
    let tx = sabs(v.x);
    let ty = sabs(v.y);
    let tz = sabs(v.z);
    let tw = sabs(v.w);
    assert(-(tx * h) <= cx <= tx * h) by (nonlinear_arith)
        requires
            cx == v.x * dx,
            -h <= dx <= h,
            h >= 0,
            tx >= 0,
            tx == v.x || tx == -v.x,
    ;
    assert(-(ty * h) <= cy <= ty * h) by (nonlinear_arith)
        requires
            cy == v.y * dy,
            -h <= dy <= h,
            h >= 0,
            ty >= 0,
            ty == v.y || ty == -v.y,
    ;
    assert(-(tz * h) <= cz <= tz * h) by (nonlinear_arith)
        requires
            cz == v.z * dz,
            -h <= dz <= h,
            h >= 0,
            tz >= 0,
            tz == v.z || tz == -v.z,
    ;
    assert(-(tw * h) <= cw <= tw * h) by (nonlinear_arith)
        requires
            cw == v.w * dw,
            -h <= dw <= h,
            h >= 0,
            tw >= 0,
            tw == v.w || tw == -v.w,
    ;
    let t = tx + ty + tz + tw;
    assert(t * h == tx * h + ty * h + tz * h + tw * h) by (nonlinear_arith)
        requires
            t == tx + ty + tz + tw,
    ;
    assert(-(t * h) <= crs <= t * h);
    lemma_cauchy4(v.x, v.y, v.z, v.w);
    assert(t * t <= 4 * sum);
    assert(t <= 2 * m + 2) by (nonlinear_arith)
        requires
            t >= 0,
            t * t <= 4 * sum,
            sum < (m + 1) * (m + 1),
            m >= 0,
    ;
    assert(t * h <= (2 * m + 2) * h) by (nonlinear_arith)
        requires
            t <= 2 * m + 2,
            h >= 0,
    ;
    assert((2 * m + 2) * h <= m * (m + 1)) by (nonlinear_arith)
        requires
            2 * h <= m,
            h >= 0,
            m >= 0,
    ;
    assert(-(m * (m + 1)) <= crs <= m * (m + 1));
    // Bound the squared rounding errors: 0 <= errs <= m * m.
    assert(0 <= dx * dx <= h * h) by (nonlinear_arith)
        requires
            -h <= dx <= h,
    ;
    assert(0 <= dy * dy <= h * h) by (nonlinear_arith)
        requires
            -h <= dy <= h,
    ;
    assert(0 <= dz * dz <= h * h) by (nonlinear_arith)
        requires
            -h <= dz <= h,
    ;
    assert(0 <= dw * dw <= h * h) by (nonlinear_arith)
        requires
            -h <= dw <= h,
    ;
    assert(4 * (h * h) <= m * m) by (nonlinear_arith)
        requires
            2 * h <= m,
            h >= 0,
    ;
    assert(0 <= errs <= m * m);
    // Combine everything into the two bounds on q.
    assert(m * m <= sum < (m + 1) * (m + 1));
    assert(m * m * q <= m * m * ((s + 50) * (s + 50))) by (nonlinear_arith)
        requires
            m * m * q == s * s * sum + 2 * s * crs + errs,
            m * m <= sum,
            sum < (m + 1) * (m + 1),
            -(m * (m + 1)) <= crs <= m * (m + 1),
            0 <= errs <= m * m,
            m >= 40_000,
            s == 1_000_000,
    ;
    assert(m * m * q >= m * m * ((s - 50) * (s - 50))) by (nonlinear_arith)
        requires
            m * m * q == s * s * sum + 2 * s * crs + errs,
            m * m <= sum,
            -(m * (m + 1)) <= crs <= m * (m + 1),
            errs >= 0,
            m >= 40_000,
            s == 1_000_000,
    ;
    assert((s - 50) * (s - 50) <= q && q <= (s + 50) * (s + 50)) by (nonlinear_arith)
        requires
            m * m * q <= m * m * ((s + 50) * (s + 50)),
            m * m * q >= m * m * ((s - 50) * (s - 50)),
            m >= 1,
    ;
}

/// Renormalizing a component of a near-unit tuple moves it by at most the
/// tuple tolerance.
proof fn lemma_renorm_component(ux: int, m2: int)
    requires
        sabs(ux) <= SCALE,
        SCALE - 50 <= m2 <= SCALE + 50,
    ensures
        sabs(div_round(ux * SCALE, m2) - ux) <= TUPLE_EPS,
{
    let s = SCALE as int;
    let q = div_round(ux * s, m2);
    let d = m2 * q - ux * s;
    lemma_div_round_close(ux * s, m2);
    assert(m2 * (q - ux) == d + ux * (s - m2)) by (nonlinear_arith)
        requires
            d == m2 * q - ux * s,
    ;
    assert(sabs(ux * (s - m2)) <= 50 * s) by (nonlinear_arith)
        requires
            sabs(ux) <= s,
            -50 <= s - m2 <= 50,
            s > 0,
    ;
    assert(sabs(q - ux) <= 100) by (nonlinear_arith)
        requires
            2 * sabs(d) <= m2,
            sabs(m2 * (q - ux)) <= sabs(d) + 50 * s,
            s == 1_000_000,
            SCALE - 50 <= m2 <= SCALE + 50,
            s == SCALE,
    ;
}

/// LAW: normalizing a nonzero vector yields a tuple of magnitude one
/// within the tuple tolerance, and normalizing the result again moves no
/// component by more than the tolerance.
///
/// Stated for vectors of magnitude at least 0.04: closer to zero the
/// fixed-point quotients carry too few significant digits for the bound
/// (the vector with all three spatial components 0.0001 is such a case).
pub proof fn lemma_normalize_unit(v: TupleView)
    requires
        v.w == 0,
        sum_sq(v) >= 1_600_000_000,
    ensures
        sabs(spec_magnitude(spec_normalize(v)) - SCALE) <= TUPLE_EPS,
        spec_tuple_approx(spec_normalize(spec_normalize(v)), spec_normalize(v)),
{
    let s = SCALE as int;
    let sum = sum_sq(v);
    assert(sum >= 0);
    crate::scalar::lemma_sqrt_exists(sum);
    let m = spec_magnitude(v);
    assert(is_sqrt_of(sum, m));
    assert(m >= 40_000) by (nonlinear_arith)
        requires
            is_sqrt_of(sum, m),
            sum >= 1_600_000_000,
    ;
    let u = spec_normalize(v);
    assert(u == spec_divide(v, m));
    lemma_norm_sq_bounds(v, m);
    let q = sum_sq(u);
    crate::scalar::lemma_sqrt_exists(q);
    let m2 = spec_magnitude(u);
    assert(is_sqrt_of(q, m2));
    assert(s - 50 <= m2 <= s + 50) by (nonlinear_arith)
        requires
            is_sqrt_of(q, m2),
            (s - 50) * (s - 50) <= q,
            q <= (s + 50) * (s + 50),
            s == 1_000_000,
    ;
    // Each component is at most one in magnitude.
    assert(v.x * v.x <= sum && v.y * v.y <= sum && v.z * v.z <= sum && v.w * v.w <= sum)
        by (nonlinear_arith)
        requires
            sum == v.x * v.x + v.y * v.y + v.z * v.z + v.w * v.w,
    ;
    lemma_component_le_magnitude(v.x, sum, m);
    lemma_component_le_magnitude(v.y, sum, m);
    lemma_component_le_magnitude(v.z, sum, m);
    lemma_component_le_magnitude(v.w, sum, m);
    lemma_unit_quotient(v.x, m);
    lemma_unit_quotient(v.y, m);
    lemma_unit_quotient(v.z, m);
    lemma_unit_quotient(v.w, m);
    lemma_renorm_component(u.x, m2);
    lemma_renorm_component(u.y, m2);
    lemma_renorm_component(u.z, m2);
    lemma_renorm_component(u.w, m2);
}

/// A free vector from three components.
pub fn vector(x: Scalar, y: Scalar, z: Scalar) -> (r: Tuple)
    ensures
        r@ == (TupleView { x: x@, y: y@, z: z@, w: 0 }),
{
    Tuple::set_vector(x, y, z)
}

/// A point from three components.
pub fn point(x: Scalar, y: Scalar, z: Scalar) -> (r: Tuple)
    ensures
        r@ == (TupleView { x: x@, y: y@, z: z@, w: SCALE as int }),
{
    Tuple::set_point(x, y, z)
}

/// A tuple from all four components.
pub fn tuple(x: Scalar, y: Scalar, z: Scalar, w: Scalar) -> (r: Tuple)
    ensures
        r@ == (TupleView { x: x@, y: y@, z: z@, w: w@ }),
{
    Tuple { x, y, z, w }
}

/// Names the kind of a tuple: `"point"` for `w == 1.0`, else `"vector"`.
pub fn vector_or_point(current_tuple: Tuple) -> (r: &'static str)
    ensures
        current_tuple@.w == SCALE ==> r@ == "point"@,
        current_tuple@.w != SCALE ==> r@ == "vector"@,
{
    if current_tuple.w.raw == SCALE {
        "point"
    } else {
        "vector"
    }
}

/// The magnitude of a tuple.
pub fn magnitude(t: Tuple) -> (r: Scalar)
    requires
        in_range(t@, MAG_LIMIT as int),
    ensures
        r@ == spec_magnitude(t@),
        is_sqrt_of(sum_sq(t@), r@),
{
    t.magnitude()
}

/// The tuple scaled to magnitude one; a zero tuple is the one error.
pub fn normalize(t: Tuple) -> (r: Result<Tuple, MathError>)
    requires
        in_range(t@, MAG_LIMIT as int),
    ensures
        is_zero(t@) <==> r == Result::<Tuple, MathError>::Err(MathError::DegenerateVector),
        match r {
            Ok(u) => u@ == spec_normalize(t@) && in_range(u@, SCALE as int),
            Err(e) => e == MathError::DegenerateVector,
        },
{
    t.normalize()
}

/// The dot product of two tuples.
pub fn dot(a: Tuple, b: Tuple) -> (r: Scalar)
    requires
        in_range(a@, MUL_LIMIT as int),
        in_range(b@, MUL_LIMIT as int),
    ensures
        r@ == spec_dot(a@, b@),
{
    Tuple::dot(a, b)
}

/// The cross product of two tuples.
pub fn cross(a: Tuple, b: Tuple) -> (r: Tuple)
    requires
        in_range(a@, MUL_LIMIT as int),
        in_range(b@, MUL_LIMIT as int),
    ensures
        r@ == spec_cross(a@, b@),
{
    Tuple::cross(a, b)
}

} // verus!
