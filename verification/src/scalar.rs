//! Fixed-point scalars: the real numbers of the engine.
//!
//! A `Scalar` stores `raw` millionths of a unit, so `1.0` is `raw ==
//! 1_000_000`. Addition and subtraction are exact; multiplication, division
//! and the square root round to the nearest representable value, and each
//! operation's contract states the resulting raw integer exactly.

use vstd::arithmetic::div_mod::lemma_fundamental_div_mod;
use vstd::arithmetic::mul::lemma_mul_upper_bound;
use vstd::prelude::*;

verus! {

/// Raw units per 1.0: the fixed-point scale.
pub const SCALE: i64 = 1_000_000;

/// Absolute value of a mathematical integer.
pub open spec fn sabs(a: int) -> int {
    if a >= 0 {
        a
    } else {
        -a
    }
}

/// `p / d` rounded to the nearest integer, halves away from zero.
/// Meaningful for `d > 0`.
pub open spec fn div_round(p: int, d: int) -> int {
    if p >= 0 {
        (p + d / 2) / d
    } else {
        -(((-p) + d / 2) / d)
    }
}

/// Raw result of multiplying two scalars given by their raw values.
pub open spec fn rmul(a: int, b: int) -> int {
    div_round(a * b, SCALE as int)
}

/// Raw result of dividing the scalar with raw value `a` by the one with raw
/// value `b`. Meaningful for `b != 0`.
pub open spec fn rdiv(a: int, b: int) -> int {
    if b > 0 {
        div_round(a * (SCALE as int), b)
    } else {
        div_round(-(a * (SCALE as int)), -b)
    }
}

/// `r` is the integer square root of `n`: the largest `r` with `r * r <= n`.
pub open spec fn is_sqrt_of(n: int, r: int) -> bool {
    &&& 0 <= r
    &&& r * r <= n
    &&& n < (r + 1) * (r + 1)
}

/// The integer square root of `n`, for `n >= 0`.
pub open spec fn isqrt(n: int) -> int {
    choose|r: int| #[trigger] is_sqrt_of(n, r)
}

/// Raw result of raising the scalar with raw value `b` to the power `n`,
/// by repeated rounded multiplication.
pub open spec fn rpow(b: int, n: nat) -> int
    decreases n,
{
    if n == 0 {
        SCALE as int
    } else {
        rmul(b, rpow(b, (n - 1) as nat))
    }
}

/// A real quantity in fixed point: the value is `raw / 1_000_000`.
#[derive(Clone, Copy, Debug, PartialEq, Eq, Structural)]
pub struct Scalar {
    pub raw: i64,
}

impl View for Scalar {
    type V = int;

    open spec fn view(&self) -> int {
        self.raw as int
    }
}

/// The rounded quotient differs from the exact one by at most half a unit:
/// `|d * div_round(p, d) - p| <= d / 2`, stated without division.
pub proof fn lemma_div_round_close(p: int, d: int)
    requires
        0 < d,
    ensures
        2 * sabs(d * div_round(p, d) - p) <= d,
{
    let h = d / 2;
    if p >= 0 {
        let q = (p + h) / d;
        lemma_fundamental_div_mod(p + h, d);
        let r = (p + h) % d;
        assert(d * q - p == h - r);
        assert(2 * h <= d);
        assert(2 * (d - 1 - h) <= d);
    } else {
        let pp = -p;
        let q = (pp + h) / d;
        lemma_fundamental_div_mod(pp + h, d);
        let r = (pp + h) % d;
        assert(d * q - pp == h - r);
        assert(2 * h <= d);
        assert(2 * (d - 1 - h) <= d);
        let dr = div_round(p, d);
        assert(dr == -q);
        assert(d * dr == -(d * q)) by (nonlinear_arith)
            requires
                dr == -q,
        ;
    }
}

/// A rounded product of bounded factors is bounded:
/// `|a| <= ba` and `|b| <= bb` give `|rmul(a, b)| <= ba * bb / SCALE + 1`.
pub proof fn lemma_rmul_bound(a: int, b: int, ba: int, bb: int)
    requires
        sabs(a) <= ba,
        sabs(b) <= bb,
    ensures
        sabs(rmul(a, b)) <= (ba * bb) / (SCALE as int) + 1,
{
    let s = SCALE as int;
    let q = rmul(a, b);
    lemma_div_round_close(a * b, s);
    assert(sabs(a * b) <= ba * bb) by {
        lemma_mul_upper_bound(sabs(a), ba, sabs(b), bb);
        assert(sabs(a * b) == sabs(a) * sabs(b)) by (nonlinear_arith);
    }
    // 2|sq| <= 2|ab| + s, so |q| <= (2 ba bb + s) / (2 s) <= ba bb / s + 1.
    assert(2 * s * sabs(q) <= 2 * (ba * bb) + s) by {
        assert(2 * sabs(s * q) <= 2 * sabs(a * b) + s);
        assert(sabs(s * q) == s * sabs(q)) by (nonlinear_arith)
            requires
                s > 0,
        ;
    }
    let k = (ba * bb) / s;
    lemma_fundamental_div_mod(ba * bb, s);
    assert(ba * bb < s * (k + 1)) by (nonlinear_arith)
        requires
            ba * bb == s * k + (ba * bb) % s,
            0 <= (ba * bb) % s < s,
    ;
    assert(2 * s * sabs(q) < 2 * (s * (k + 1)) + s);
    assert(sabs(q) <= k + 1) by (nonlinear_arith)
        requires
            2 * s * sabs(q) < 2 * (s * (k + 1)) + s,
            s > 0,
            0 <= sabs(q),
    ;
}

/// Rounding an exact multiple of the divisor changes nothing.
pub proof fn lemma_div_round_exact(k: int, d: int)
    requires
        0 < d,
    ensures
        div_round(k * d, d) == k,
{
    let h = d / 2;
    if k >= 0 {
        assert(k * d >= 0) by (nonlinear_arith)
            requires
                k >= 0,
                d > 0,
        ;
        assert(k * d + h == d * k + h);
        vstd::arithmetic::div_mod::lemma_fundamental_div_mod_converse_div(k * d + h, d, k, h);
    } else {
        assert(k * d < 0) by (nonlinear_arith)
            requires
                k < 0,
                d > 0,
        ;
        assert(-(k * d) == (-k) * d) by (nonlinear_arith);
        assert((-k) * d + h == d * (-k) + h);
        vstd::arithmetic::div_mod::lemma_fundamental_div_mod_converse_div((-k) * d + h, d, -k, h);
        assert(div_round(k * d, d) == -(((-k) * d + h) / d));
    }
}

/// A rounded quotient of a bounded numerator over any nonzero divisor is
/// bounded: `|a| <= bound` gives `|rdiv(a, b)| <= bound * SCALE + 1`.
pub proof fn lemma_rdiv_bound(a: int, b: int, bound: int)
    requires
        sabs(a) <= bound,
        b != 0,
    ensures
        sabs(rdiv(a, b)) <= bound * (SCALE as int) + 1,
{
    let s = SCALE as int;
    let p = if b > 0 {
        a * s
    } else {
        -(a * s)
    };
    let d = if b > 0 {
        b
    } else {
        -b
    };
    let q = div_round(p, d);
    assert(rdiv(a, b) == q);
    lemma_div_round_close(p, d);
    assert(sabs(p) <= bound * s) by (nonlinear_arith)
        requires
            sabs(a) <= bound,
            s > 0,
            p == a * s || p == -(a * s),
    ;
    let e = d * q - p;
    assert(-d <= 2 * e <= d);
    assert(-(bound * s + 1) <= q <= bound * s + 1) by (nonlinear_arith)
        requires
            -d <= 2 * (d * q - p) <= d,
            d >= 1,
            -(bound * s) <= p <= bound * s,
            bound * s >= 0,
    ;
}

/// An integer square root exists for every nonnegative integer.
pub proof fn lemma_sqrt_exists(n: int)
    requires
        n >= 0,
    ensures
        exists|r: int| is_sqrt_of(n, r),
    decreases n,
{
    if n == 0 {
        assert(is_sqrt_of(0, 0)) by (nonlinear_arith);
    } else {
        lemma_sqrt_exists(n - 1);
        let r = choose|r: int| #[trigger] is_sqrt_of(n - 1, r);
        if (r + 1) * (r + 1) <= n {
            assert(is_sqrt_of(n, r + 1)) by (nonlinear_arith)
                requires
                    (r + 1) * (r + 1) <= n,
                    n - 1 < (r + 1) * (r + 1),
                    r >= 0,
            ;
        } else {
            assert(is_sqrt_of(n, r));
        }
    }
}

/// Integer square roots are unique.
pub proof fn lemma_sqrt_unique(n: int, r1: int, r2: int)
    requires
        is_sqrt_of(n, r1),
        is_sqrt_of(n, r2),
    ensures
        r1 == r2,
{
    assert(r1 == r2) by (nonlinear_arith)
        requires
            0 <= r1,
            0 <= r2,
            r1 * r1 <= n,
            n < (r1 + 1) * (r1 + 1),
            r2 * r2 <= n,
            n < (r2 + 1) * (r2 + 1),
    ;
}

/// Anything satisfying `is_sqrt_of(n, r)` is the value of `isqrt(n)`.
pub proof fn lemma_isqrt_is(n: int, r: int)
    requires
        is_sqrt_of(n, r),
    ensures
        isqrt(n) == r,
{
    assert(is_sqrt_of(n, isqrt(n)));
    lemma_sqrt_unique(n, isqrt(n), r);
}

/// Integer square root by bisection on `u128`.
pub(crate) fn isqrt_u128(n: u128) -> (r: u128)
    ensures
        is_sqrt_of(n as int, r as int),
        r < 0x1_0000_0000_0000_0000,
{
    if n == 0 {
        return 0;
    }
    let mut lo: u128 = 0;
    let mut hi: u128 = 0x1_0000_0000_0000_0000;
    assert((n as int) < (hi as int) * (hi as int)) by (nonlinear_arith)
        requires
            n <= 0xffff_ffff_ffff_ffff_ffff_ffff_ffff_ffff,
            hi == 0x1_0000_0000_0000_0000,
    ;
    while lo + 1 < hi
        invariant
            lo < hi,
            hi <= 0x1_0000_0000_0000_0000,
            (lo as int) * (lo as int) <= n as int,
            (n as int) < (hi as int) * (hi as int),
        decreases hi - lo,
    {
        let mid: u128 = lo + (hi - lo) / 2;
        assert((mid as int) * (mid as int) <= 0xffff_ffff_ffff_ffff_ffff_ffff_ffff_ffff)
            by (nonlinear_arith)
            requires
                mid < 0x1_0000_0000_0000_0000,
        ;
        if mid * mid <= n {
            lo = mid;
        } else {
            hi = mid;
        }
    }
    lo
}

/// Computes `div_round(p, d)` on machine integers.
fn scale_div(p: i128, d: i128) -> (r: i64)
    requires
        0 < d,
        sabs(p as int) <= 0x4000_0000_0000_0000_0000_0000_0000_0000,
        -0x7fff_ffff_ffff_ffff <= div_round(p as int, d as int) <= 0x7fff_ffff_ffff_ffff,
    ensures
        r as int == div_round(p as int, d as int),
{
    let neg: bool = p < 0;
    let m: u128 = if neg {
        (-p) as u128
    } else {
        p as u128
    };
    let du: u128 = d as u128;
    let q: u128 = (m + du / 2) / du;
    if neg {
        assert(q == ((-p) as int + (d as int) / 2) / (d as int));
        -(q as i64)
    } else {
        assert(q == (p as int + (d as int) / 2) / (d as int));
        q as i64
    }
}

/// Computes `rdiv(num, den)` on raw values, for a positive divisor.
pub(crate) fn ratio_raw(num: i64, den: i64) -> (r: i64)
    requires
        1 <= den,
        -0x7fff_ffff_ffff_ffff <= rdiv(num as int, den as int) <= 0x7fff_ffff_ffff_ffff,
    ensures
        r as int == rdiv(num as int, den as int),
{
    let p: i128 = (num as i128) * (SCALE as i128);
    scale_div(p, den as i128)
}

impl Scalar {
    /// The scalar of an integer value: `from_int(2)` is `2.0`.
    pub fn from_int(i: i64) -> (r: Scalar)
        requires
            -9_000_000_000_000 <= i <= 9_000_000_000_000,
        ensures
            r@ == i * SCALE,
    {
        Scalar { raw: i * SCALE }
    }

    /// The scalar nearest to the fraction `num / den`.
    pub fn from_ratio(num: i64, den: i64) -> (r: Scalar)
        requires
            den != 0,
            -0x7fff_ffff_ffff_ffff <= rdiv(num as int, den as int) <= 0x7fff_ffff_ffff_ffff,
        ensures
            r@ == rdiv(num as int, den as int),
    {
        let mut p: i128 = (num as i128) * (SCALE as i128);
        let mut d: i128 = den as i128;
        if d < 0 {
            p = -p;
            d = -d;
        }
        let raw: i64 = scale_div(p, d);
        Scalar { raw }
    }

    /// Exact sum. The arguments must be small enough that the sum stays
    /// representable.
    pub fn add(self, rhs: Scalar) -> (r: Scalar)
        requires
            -0x8000_0000_0000_0000 <= self@ + rhs@ <= 0x7fff_ffff_ffff_ffff,
        ensures
            r@ == self@ + rhs@,
    {
        Scalar { raw: self.raw + rhs.raw }
    }

    /// Exact difference.
    pub fn sub(self, rhs: Scalar) -> (r: Scalar)
        requires
            -0x8000_0000_0000_0000 <= self@ - rhs@ <= 0x7fff_ffff_ffff_ffff,
        ensures
            r@ == self@ - rhs@,
    {
        Scalar { raw: self.raw - rhs.raw }
    }

    /// Exact negation.
    pub fn neg(self) -> (r: Scalar)
        requires
            self@ != -0x8000_0000_0000_0000,
        ensures
            r@ == -self@,
    {
        Scalar { raw: -self.raw }
    }

    /// Product, rounded to the nearest representable scalar.
    pub fn mul(self, rhs: Scalar) -> (r: Scalar)
        requires
            -0x7fff_ffff_ffff_ffff <= rmul(self@, rhs@) <= 0x7fff_ffff_ffff_ffff,
        ensures
            r@ == rmul(self@, rhs@),
    {
        let p: i128 = (self.raw as i128) * (rhs.raw as i128);
        assert(sabs(p as int) <= 0x4000_0000_0000_0000_0000_0000_0000_0000) by (nonlinear_arith)
            requires
                p == (self.raw as int) * (rhs.raw as int),
                -0x8000_0000_0000_0000 <= self.raw as int <= 0x7fff_ffff_ffff_ffff,
                -0x8000_0000_0000_0000 <= rhs.raw as int <= 0x7fff_ffff_ffff_ffff,
        ;
        let raw: i64 = scale_div(p, SCALE as i128);
        Scalar { raw }
    }

    /// Quotient, rounded to the nearest representable scalar. The divisor
    /// must be nonzero.
    pub fn div(self, rhs: Scalar) -> (r: Scalar)
        requires
            rhs@ != 0,
            -0x7fff_ffff_ffff_ffff <= rdiv(self@, rhs@) <= 0x7fff_ffff_ffff_ffff,
        ensures
            r@ == rdiv(self@, rhs@),
    {
        Scalar::from_ratio(self.raw, rhs.raw)
    }

    /// Quotient with every failure reported: `None` exactly when the divisor
    /// is zero or the result would not be representable.
    pub fn checked_div(self, rhs: Scalar) -> (r: Option<Scalar>)
        ensures
            match r {
                Some(s) => rhs@ != 0 && s@ == rdiv(self@, rhs@) && -0x7fff_ffff_ffff_ffff <= rdiv(
                    self@,
                    rhs@,
                ) <= 0x7fff_ffff_ffff_ffff,
                None => rhs@ == 0 || sabs(rdiv(self@, rhs@)) > 0x7fff_ffff_ffff_ffff,
            },
    {
        if rhs.raw == 0 {
            return None;
        }
        proof {
            assert(sabs((self.raw as int) * (SCALE as int)) <= 0x4000_0000_0000_0000_0000_0000_0000_0000)
                by (nonlinear_arith)
                requires
                    -0x8000_0000_0000_0000 <= self.raw as int <= 0x7fff_ffff_ffff_ffff,
            ;
        }
        let mut p: i128 = (self.raw as i128) * (SCALE as i128);
        let mut d: i128 = rhs.raw as i128;
        if d < 0 {
            p = -p;
            d = -d;
        }
        let neg: bool = p < 0;
        let m: u128 = if neg {
            (-p) as u128
        } else {
            p as u128
        };
        let du: u128 = d as u128;
        let q: u128 = (m + du / 2) / du;
        if q > 0x7fff_ffff_ffff_ffff {
            if neg {
                assert(rdiv(self@, rhs@) == -(q as int));
            } else {
                assert(rdiv(self@, rhs@) == q as int);
            }
            None
        } else if neg {
            assert(rdiv(self@, rhs@) == -(q as int));
            Some(Scalar { raw: -(q as i64) })
        } else {
            assert(rdiv(self@, rhs@) == q as int);
            Some(Scalar { raw: q as i64 })
        }
    }

    /// Square root, rounded down to the nearest representable scalar.
    /// Meaningful for nonnegative scalars only.
    pub fn sqrt(self) -> (r: Scalar)
        requires
            self@ >= 0,
        ensures
            r@ == isqrt(self@ * SCALE),
            is_sqrt_of(self@ * SCALE, r@),
            r@ >= 0,
    {
        let n: u128 = (self.raw as u128) * (SCALE as u128);
        let root: u128 = isqrt_u128(n);
        assert(root <= 0x7fff_ffff_ffff_ffff) by (nonlinear_arith)
            requires
                (root as int) * (root as int) <= n as int,
                n as int <= 0x7fff_ffff_ffff_ffff * 1_000_000,
                root >= 0,
        ;
        proof {
            lemma_isqrt_is(self@ * SCALE, root as int);
        }
        Scalar { raw: root as i64 }
    }

    /// Whether two scalars agree within the absolute tolerance `eps`.
    pub fn approx_eq(self, other: Scalar, eps: Scalar) -> (r: bool)
        ensures
            r == (sabs(self@ - other@) <= eps@),
    {
        let diff: i128 = (self.raw as i128) - (other.raw as i128);
        let mag: i128 = if diff < 0 {
            -diff
        } else {
            diff
        };
        mag <= eps.raw as i128
    }

    /// `self` raised to the integer power `n` by repeated rounded
    /// multiplication. The base must lie within half a thousandth of the
    /// unit interval so that the iterated products stay representable.
    pub fn pow(self, n: u32) -> (r: Scalar)
        requires
            sabs(self@) <= SCALE + 500,
            n <= 400,
        ensures
            r@ == rpow(self@, n as nat),
            sabs(r@) <= SCALE + 700 * n,
    {
        let mut acc = Scalar { raw: SCALE };
        let mut i: u32 = 0;
        while i < n
            invariant
                i <= n,
                n <= 400,
                sabs(self@) <= SCALE + 500,
                acc@ == rpow(self@, i as nat),
                sabs(acc@) <= SCALE + 700 * i,
            decreases n - i,
        {
            proof {
                lemma_rmul_bound(self@, acc@, SCALE + 500, SCALE + 700 * i);
                assert((SCALE + 500) * (SCALE + 700 * (i as int)) / (SCALE as int) + 1 <= SCALE
                    + 700 * (i + 1)) by (nonlinear_arith)
                    requires
                        0 <= i <= 400,
                ;
            }
            acc = self.mul(acc);
            i = i + 1;
        }
        acc
    }
}

} // verus!
