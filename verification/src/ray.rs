//! Rays, spheres, and the quadratic intersection test between them.

use crate::material::{Material, MaterialView};
use crate::matrix::raw_seq;
use crate::scalar::{
    isqrt, lemma_div_round_exact, lemma_rdiv_bound, lemma_rmul_bound, rdiv, rmul, sabs, Scalar,
    SCALE,
};
use crate::tuple::{
    in_range, is_zero, spec_dot, spec_normalize, spec_scale, spec_sub, Tuple, TupleView,
    MUL_LIMIT,
};
use crate::MathError;
use vstd::prelude::*;

verus! {

/// Positions, sphere centers and radii handed to the intersection test
/// must stay below this raw bound (the value 1000).
pub const POS_LIMIT: i64 = 1_000_000_000;

/// Ray directions handed to the intersection test must stay below this
/// raw bound (the value 2): directions are expected normalized, with
/// generous slack.
pub const DIR_LIMIT: i64 = 2_000_000;

/// The mathematical content of a ray.
pub struct RayView {
    pub direction: TupleView,
    pub origin: TupleView,
}

/// The mathematical content of a sphere.
pub struct SphereView {
    pub origin: TupleView,
    pub radius: int,
    pub material: MaterialView,
}

/// `v - n * 2 * dot(v, n)`: the reflection of `v` about the normal `n`.
pub open spec fn spec_reflect(v: TupleView, n: TupleView) -> TupleView {
    spec_sub(v, spec_scale(n, rmul(2 * SCALE, spec_dot(v, n))))
}

/// The parameters at which a ray meets a sphere: empty when the
/// discriminant of `|O + tD - C|^2 = r^2` is negative, else the two roots
/// in ascending order (negative roots, behind the origin, are kept).
pub open spec fn spec_sphere_intersect(ray: RayView, sphere: SphereView) -> Seq<int> {
    let l = spec_sub(ray.origin, sphere.origin);
    let a = spec_dot(ray.direction, ray.direction);
    let b = rmul(2 * SCALE, spec_dot(l, ray.direction));
    let c = spec_dot(l, l) - rmul(sphere.radius, sphere.radius);
    let disc = rmul(b, b) - rmul(rmul(4 * SCALE, a), c);
    if disc < 0 {
        seq![]
    } else {
        let sd = isqrt(disc * SCALE);
        let two_a = rmul(2 * SCALE, a);
        seq![rdiv(-b - sd, two_a), rdiv(-b + sd, two_a)]
    }
}

/// A ray: an origin point and a direction vector.
#[derive(Clone, Copy, Debug)]
pub struct Ray {
    pub direction: Tuple,
    pub origin: Tuple,
}

impl View for Ray {
    type V = RayView;

    open spec fn view(&self) -> RayView {
        RayView { direction: self.direction@, origin: self.origin@ }
    }
}

/// A sphere: a center point, a radius, and a surface material.
#[derive(Clone, Copy, Debug)]
pub struct Sphere {
    pub origin: Tuple,
    pub radius: Scalar,
    pub material: Material,
}

impl View for Sphere {
    type V = SphereView;

    open spec fn view(&self) -> SphereView {
        SphereView { origin: self.origin@, radius: self.radius@, material: self.material@ }
    }
}

impl Ray {
    /// A ray from its direction and origin.
    pub fn set_ray(direction: Tuple, origin: Tuple) -> (r: Ray)
        ensures
            r@.direction == direction@,
            r@.origin == origin@,
    {
        Ray { direction, origin }
    }

    /// The point `origin + direction * t` reached after parameter `t`.
    pub fn calculate_position(&self, t: Scalar) -> (r: Tuple)
        requires
            in_range(self@.origin, POS_LIMIT as int),
            in_range(self@.direction, POS_LIMIT as int),
            sabs(t@) <= POS_LIMIT,
        ensures
            r@ == crate::tuple::spec_add(self@.origin, spec_scale(self@.direction, t@)),
    {
        proof {
            lemma_rmul_bound(self@.direction.x, t@, POS_LIMIT as int, POS_LIMIT as int);
            lemma_rmul_bound(self@.direction.y, t@, POS_LIMIT as int, POS_LIMIT as int);
            lemma_rmul_bound(self@.direction.z, t@, POS_LIMIT as int, POS_LIMIT as int);
            lemma_rmul_bound(self@.direction.w, t@, POS_LIMIT as int, POS_LIMIT as int);
        }
        self.origin.add(self.direction.scale(t))
    }

    /// The parameters at which `ray` meets `sphere`: none, or the two
    /// quadratic roots in ascending order, with roots behind the origin
    /// kept. The direction must have a nonzero rounded self-dot; whether
    /// the result is empty says whether the ray misses the sphere.
    pub fn sphere_intersect(ray: &Ray, sphere: &Sphere) -> (r: Vec<Scalar>)
        requires
            in_range(ray@.origin, POS_LIMIT as int),
            in_range(ray@.direction, DIR_LIMIT as int),
            in_range(sphere@.origin, POS_LIMIT as int),
            0 <= sphere@.radius <= POS_LIMIT,
            spec_dot(ray@.direction, ray@.direction) > 0,
        ensures
            raw_seq(r@) == spec_sphere_intersect(ray@, sphere@),
            r@.len() == 0 || r@.len() == 2,
    {
        let ghost gl = spec_sub(ray@.origin, sphere@.origin);
        let ghost ga = spec_dot(ray@.direction, ray@.direction);
        proof {
            lemma_dot_range(gl, ray@.direction, 2_000_000_000, 2_000_000);
            lemma_dot_range(ray@.direction, ray@.direction, 2_000_000, 2_000_000);
            lemma_dot_range(gl, gl, 2_000_000_000, 2_000_000_000);
        }
        let sphere_to_ray = ray.origin.sub(sphere.origin);
        let a = Tuple::dot(ray.direction, ray.direction);
        let ld = Tuple::dot(sphere_to_ray, ray.direction);
        proof {
            lemma_rmul_bound(2 * SCALE as int, ld@, 2_000_000, 16_000_000_004);
        }
        let two = Scalar::from_int(2);
        let b = two.mul(ld);
        proof {
            lemma_rmul_bound(sphere@.radius, sphere@.radius, 1_000_000_000, 1_000_000_000);
            assert(sphere_to_ray@ == gl);
            assert(sabs(spec_dot(gl, gl)) <= 16_000_000_000_004);
            assert(sabs(rmul(sphere@.radius, sphere@.radius)) <= 1_000_000_000_001);
        }
        let c = Tuple::dot(sphere_to_ray, sphere_to_ray).sub(sphere.radius.mul(sphere.radius));
        proof {
            lemma_rmul_bound(b@, b@, 33_000_000_000, 33_000_000_000);
            lemma_rmul_bound(4 * SCALE as int, a@, 4_000_000, 16_000_000_004);
            lemma_rmul_bound(rmul(4 * SCALE, a@), c@, 64_000_000_017, 17_200_000_000_000);
        }
        let four = Scalar::from_int(4);
        let discriminant = b.mul(b).sub(four.mul(a).mul(c));
        if discriminant.raw < 0 {
            proof {
                assert(raw_seq(Seq::<Scalar>::empty()) =~= spec_sphere_intersect(ray@, sphere@));
            }
            return Vec::new();
        }
        let sd = discriminant.sqrt();
        proof {
            assert(sd@ * sd@ <= discriminant@ * SCALE);
            assert(sd@ <= 1_100_000_000_000) by (nonlinear_arith)
                requires
                    sd@ * sd@ <= discriminant@ * SCALE,
                    discriminant@ <= 1_110_000_000_000_000_000,
                    SCALE == 1_000_000,
                    sd@ >= 0,
            ;
            assert(rmul(2 * SCALE, ga) == 2 * ga) by {
                lemma_div_round_exact(2 * ga, SCALE as int);
                assert((2 * SCALE) * ga == (2 * ga) * SCALE) by (nonlinear_arith);
            }
            lemma_rdiv_bound(-b@ - sd@, 2 * ga, 2_100_000_000_000);
            lemma_rdiv_bound(-b@ + sd@, 2 * ga, 2_100_000_000_000);
        }
        let two_a = two.mul(a);
        let t1 = (b.neg().sub(sd)).div(two_a);
        let t2 = (b.neg().add(sd)).div(two_a);
        let mut result: Vec<Scalar> = Vec::new();
        result.push(t1);
        result.push(t2);
        proof {
            assert(raw_seq(result@) =~= spec_sphere_intersect(ray@, sphere@));
        }
        result
    }
}

/// A dot product of bounded tuples is bounded by four maximal products.
pub(crate) proof fn lemma_dot_range(a: TupleView, b: TupleView, ba: int, bb: int)
    requires
        in_range(a, ba),
        in_range(b, bb),
        0 <= ba <= MUL_LIMIT,
        0 <= bb <= MUL_LIMIT,
    ensures
        sabs(spec_dot(a, b)) <= 4 * ((ba * bb) / (SCALE as int) + 1),
{
    lemma_rmul_bound(a.x, b.x, ba, bb);
    lemma_rmul_bound(a.y, b.y, ba, bb);
    lemma_rmul_bound(a.z, b.z, ba, bb);
    lemma_rmul_bound(a.w, b.w, ba, bb);
}

/// `reflect(v, n) = v - n * 2 * dot(v, n)`: the reflection of `v` about
/// the normal `n`.
pub fn reflect(v: Tuple, n: Tuple) -> (r: Tuple)
    requires
        in_range(v@, POS_LIMIT as int),
        in_range(n@, POS_LIMIT as int),
    ensures
        r@ == spec_reflect(v@, n@),
{
    proof {
        lemma_dot_range(v@, n@, POS_LIMIT as int, POS_LIMIT as int);
        lemma_rmul_bound(2 * SCALE as int, spec_dot(v@, n@), 2 * SCALE as int, 4_000_000_000_004);
        lemma_rmul_bound(n@.x, rmul(2 * SCALE, spec_dot(v@, n@)), POS_LIMIT as int,
            8_000_000_000_009);
        lemma_rmul_bound(n@.y, rmul(2 * SCALE, spec_dot(v@, n@)), POS_LIMIT as int,
            8_000_000_000_009);
        lemma_rmul_bound(n@.z, rmul(2 * SCALE, spec_dot(v@, n@)), POS_LIMIT as int,
            8_000_000_000_009);
        lemma_rmul_bound(n@.w, rmul(2 * SCALE, spec_dot(v@, n@)), POS_LIMIT as int,
            8_000_000_000_009);
    }
    let d = Tuple::dot(v, n);
    let two = Scalar::from_int(2);
    let s = two.mul(d);
    v.sub(n.scale(s))
}

impl Sphere {
    /// A sphere from its center and radius, wearing the stock material.
    pub fn set_sphere(origin: Tuple, radius: Scalar) -> (r: Sphere)
        requires
            radius@ > 0,
        ensures
            r@.origin == origin@,
            r@.radius == radius@,
            r@.material == crate::material::spec_default_material(),
    {
        Sphere { origin, radius, material: Material::default_material() }
    }

    /// The unit surface normal at a point on the sphere: the normalized
    /// vector from the center to the point. The result has `w == 0`
    /// because subtracting the two points cancels their `w`. A point at
    /// the very center has no normal: that is the one error.
    pub fn normal_at(&self, point: Tuple) -> (r: Result<Tuple, MathError>)
        requires
            in_range(self@.origin, POS_LIMIT as int),
            in_range(point@, POS_LIMIT as int),
        ensures
            spec_sub(point@, self@.origin) == (TupleView { x: 0, y: 0, z: 0, w: 0 }) <==> r
                == Result::<Tuple, MathError>::Err(MathError::DegenerateVector),
            match r {
                Ok(u) => u@ == spec_normalize(spec_sub(point@, self@.origin)) && in_range(
                    u@,
                    SCALE as int,
                ),
                Err(e) => e == MathError::DegenerateVector,
            },
    {
        let vector_to_point = point.sub(self.origin);
        let r = vector_to_point.normalize();
        proof {
            if is_zero(vector_to_point@) {
                assert(vector_to_point@ == (TupleView { x: 0, y: 0, z: 0, w: 0 }));
            }
        }
        r
    }
}

} // verus!
