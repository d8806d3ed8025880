use vstd::prelude::*;
use crate::fixed::SCALE;
use crate::fixed::COORD_MAX;
use crate::fixed::T_MAX;
use crate::fixed::div_trunc;
use crate::fixed::sqrt_floor;
use crate::fixed::lemma_sqrt_floor_bounds;
use crate::fixed::lemma_div_trunc_bound;
use crate::fixed::lemma_div_trunc_ordered;
use crate::fixed::lemma_div_trunc_fundamental;
use crate::fixed::div_i128;
use crate::fixed::isqrt_u128;
use crate::vec3::Vec3;
use crate::vec3::V3;
use crate::vec3::sdot;
use crate::vec3::svsub;
use crate::vec3::svdiv_scalar;
use crate::vec3::snormsq;
use crate::vec3::in_coord_range;
use crate::vec3::lemma_prod_bound;
use crate::ray::Ray;
use crate::ray::spoint_at;
use crate::hit::HitRecord;
use crate::hit::HitV;

verus! {

/// Quadratic coefficient `a`: the squared norm of the ray direction.
pub open spec fn sp_a(d: V3) -> int {
    sdot(d, d)
}

/// Half-b coefficient: the inner product of origin-minus-center with the
/// direction (not doubled, the half-b convention).
pub open spec fn sp_b(c: V3, o: V3, d: V3) -> int {
    sdot(svsub(o, c), d)
}

/// Constant coefficient: squared distance of the origin from the center,
/// less the squared radius.
pub open spec fn sp_c(c: V3, r: int, o: V3) -> int {
    sdot(svsub(o, c), svsub(o, c)) - r * r
}

/// Discriminant of the half-b quadratic, `b*b - a*c`, at scale `SCALE^4`.
pub open spec fn sp_disc(c: V3, r: int, o: V3, d: V3) -> int {
    sp_b(c, o, d) * sp_b(c, o, d) - sp_a(d) * sp_c(c, r, o)
}

/// The smaller root of the quadratic, as the engine computes it: floor
/// square root of the discriminant, then a truncating division.
pub open spec fn sp_t0(c: V3, r: int, o: V3, d: V3) -> int {
    div_trunc((-sp_b(c, o, d) - sqrt_floor(sp_disc(c, r, o, d))) * (SCALE as int), sp_a(d))
}

/// The larger root of the quadratic, as the engine computes it.
pub open spec fn sp_t1(c: V3, r: int, o: V3, d: V3) -> int {
    div_trunc((-sp_b(c, o, d) + sqrt_floor(sp_disc(c, r, o, d))) * (SCALE as int), sp_a(d))
}

/// The parametric distance a sphere intersection query reports: the smaller
/// root if it lies strictly inside `(tmin, tmax)`, else the larger root if
/// that one does, else no intersection. A non-positive discriminant,
/// including the tangent case, is a miss.
pub open spec fn sphere_hit_t(c: V3, r: int, o: V3, d: V3, tmin: int, tmax: int) -> Option<
    int,
> {
    if sp_disc(c, r, o, d) <= 0 {
        None
    } else if tmin < sp_t0(c, r, o, d) && sp_t0(c, r, o, d) < tmax {
        Some(sp_t0(c, r, o, d))
    } else if tmin < sp_t1(c, r, o, d) && sp_t1(c, r, o, d) < tmax {
        Some(sp_t1(c, r, o, d))
    } else {
        None
    }
}

/// The record reported for a hit of the sphere `(c, r)` at distance `t`: the
/// point on the ray, and the normal `(point - center) / radius`.
pub open spec fn sphere_record(c: V3, r: int, o: V3, d: V3, t: int) -> HitV {
    HitV {
        t,
        p: spoint_at(o, d, t),
        n: svdiv_scalar(svsub(spoint_at(o, d, t), c), r),
    }
}

/// A sphere: a center and a positive radius. A radius of zero or below makes
/// no surface and is excluded by well-formedness.
#[derive(Clone, Copy, Debug, PartialEq, Eq, Structural)]
pub struct Sphere {
    pub center: Vec3,
    pub radius: i64,
}

impl Sphere {
    /// The center is in coordinate range and the radius is positive and in
    /// coordinate range.
    pub open spec fn wf(&self) -> bool {
        &&& in_coord_range(self.center@)
        &&& 0 < self.radius <= COORD_MAX
    }

    pub fn new(center: Vec3, radius: i64) -> (s: Sphere)
        ensures
            s.center == center,
            s.radius == radius,
    {
        Sphere { center, radius }
    }

    /// Test whether the ray intersects this sphere at a parametric distance
    /// strictly inside `(t_min, t_max)`; report the intersection nearest to
    /// `t_min`, or nothing.
    pub fn hit(&self, ray: &Ray, t_min: i64, t_max: i64) -> (res: Option<HitRecord>)
        requires
            self.wf(),
            ray.wf(),
            snormsq(ray.direction@) > 0,
            -(T_MAX as int) <= t_min <= T_MAX as int,
            -(T_MAX as int) <= t_max <= T_MAX as int,
        ensures
            match res {
                Some(h) => {
                    &&& sphere_hit_t(
                        self.center@,
                        self.radius as int,
                        ray.origin@,
                        ray.direction@,
                        t_min as int,
                        t_max as int,
                    ) == Some(h@.t)
                    &&& h@ == sphere_record(
                        self.center@,
                        self.radius as int,
                        ray.origin@,
                        ray.direction@,
                        h@.t,
                    )
                    &&& t_min < h@.t < t_max
                },
                None => sphere_hit_t(
                    self.center@,
                    self.radius as int,
                    ray.origin@,
                    ray.direction@,
                    t_min as int,
                    t_max as int,
                ) is None,
            },
    {
        let c = self.center;
        let o = ray.origin;
        let d = ray.direction;
        let ghost cv = c@;
        let ghost rv = self.radius as int;
        let ghost ov = o@;
        let ghost dv = d@;
        let ocx: i128 = (o.x as i128) - (c.x as i128);
        let ocy: i128 = (o.y as i128) - (c.y as i128);
        let ocz: i128 = (o.z as i128) - (c.z as i128);
        let dx: i128 = d.x as i128;
        let dy: i128 = d.y as i128;
        let dz: i128 = d.z as i128;
        proof {
            lemma_prod_bound(dv.x, dv.x, 33554432);
            lemma_prod_bound(dv.y, dv.y, 33554432);
            lemma_prod_bound(dv.z, dv.z, 33554432);
            lemma_prod_bound(ov.x - cv.x, dv.x, 33554432);
            lemma_prod_bound(ov.y - cv.y, dv.y, 33554432);
            lemma_prod_bound(ov.z - cv.z, dv.z, 33554432);
            lemma_prod_bound(ov.x - cv.x, ov.x - cv.x, 33554432);
            lemma_prod_bound(ov.y - cv.y, ov.y - cv.y, 33554432);
            lemma_prod_bound(ov.z - cv.z, ov.z - cv.z, 33554432);
            lemma_prod_bound(rv, rv, 33554432);
        }
        let a: i128 = dx * dx + dy * dy + dz * dz;
        let b: i128 = ocx * dx + ocy * dy + ocz * dz;
        let cq: i128 = ocx * ocx + ocy * ocy + ocz * ocz - (self.radius as i128) * (
        self.radius as i128);
        proof {
            assert(a as int == sp_a(dv) && b as int == sp_b(cv, ov, dv) && cq as int == sp_c(
                cv,
                rv,
                ov,
            ));
            lemma_prod_bound(b as int, b as int, 4503599627370496);
            lemma_prod_bound(a as int, cq as int, 4503599627370496);
        }
        let disc: i128 = b * b - a * cq;
        if disc <= 0 {
            return None;
        }
        let sq_u: u128 = isqrt_u128(disc as u128);
        proof {
            lemma_sqrt_floor_bounds(disc as int);
            assert(sqrt_floor(disc as int) <= disc as int) by (nonlinear_arith)
                requires
                    sqrt_floor(disc as int) >= 0,
                    sqrt_floor(disc as int) * sqrt_floor(disc as int) <= disc as int,
                    disc as int >= 1,
            ;
        }
        let sq: i128 = sq_u as i128;
        proof {
            lemma_div_trunc_bound((-b - sq) as int * (SCALE as int), a as int);
            lemma_div_trunc_bound((-b + sq) as int * (SCALE as int), a as int);
        }
        let t0: i128 = div_i128((-b - sq) * (SCALE as i128), a);
        if (t_min as i128) < t0 && t0 < (t_max as i128) {
            let t = t0 as i64;
            return Some(self.make_record(ray, t));
        }
        let t1: i128 = div_i128((-b + sq) * (SCALE as i128), a);
        if (t_min as i128) < t1 && t1 < (t_max as i128) {
            let t = t1 as i64;
            return Some(self.make_record(ray, t));
        }
        None
    }

    /// Build the hit record for an intersection of this sphere at `t`.
    fn make_record(&self, ray: &Ray, t: i64) -> (h: HitRecord)
        requires
            self.wf(),
            ray.wf(),
            -(T_MAX as int) <= t <= T_MAX as int,
        ensures
            h@ == sphere_record(
                self.center@,
                self.radius as int,
                ray.origin@,
                ray.direction@,
                t as int,
            ),
    {
        let p = ray.point_at(t);
        let nx: i128 = div_i128(
            ((p.x as i128) - (self.center.x as i128)) * (SCALE as i128),
            self.radius as i128,
        );
        let ny: i128 = div_i128(
            ((p.y as i128) - (self.center.y as i128)) * (SCALE as i128),
            self.radius as i128,
        );
        let nz: i128 = div_i128(
            ((p.z as i128) - (self.center.z as i128)) * (SCALE as i128),
            self.radius as i128,
        );
        proof {
            lemma_div_trunc_bound((p@.x - self.center@.x) * (SCALE as int), self.radius as int);
            lemma_div_trunc_bound((p@.y - self.center@.y) * (SCALE as int), self.radius as int);
            lemma_div_trunc_bound((p@.z - self.center@.z) * (SCALE as int), self.radius as int);
        }
        HitRecord { t, p, n: Vec3 { x: nx as i64, y: ny as i64, z: nz as i64 } }
    }
}

/// A division whose remainder is zero is exact, whichever way it rounds.
pub proof fn lemma_exact_div_trunc(n: int, d: int, m: int)
    requires
        d > 0,
        n == d * m,
    ensures
        div_trunc(n, d) == m,
{
    lemma_div_trunc_fundamental(n, d);
    let q = div_trunc(n, d);
    assert(q == m) by (nonlinear_arith)
        requires
            n == d * m,
            -(d - 1) <= n - d * q,
            n - d * q <= d - 1,
            d > 0,
    ;
}

/// Hit-point round trip, in the exact case: when the discriminant is a
/// perfect square, `t` is an exactly divided root of the quadratic, and the
/// point evaluation divides exactly, the reported hit point lies exactly one
/// radius from the sphere's center. (With rounding, each of those three
/// steps may lose up to one raw unit, and the distance is only close to the
/// radius.)
pub proof fn lemma_hit_point_on_sphere(c: V3, r: int, o: V3, d: V3, t: int)
    requires
        sp_a(d) > 0,
        sp_disc(c, r, o, d) >= 0,
        sqrt_floor(sp_disc(c, r, o, d)) * sqrt_floor(sp_disc(c, r, o, d)) == sp_disc(
            c,
            r,
            o,
            d,
        ),
        sp_a(d) * t == (-sp_b(c, o, d) - sqrt_floor(sp_disc(c, r, o, d))) * (SCALE as int)
            || sp_a(d) * t == (-sp_b(c, o, d) + sqrt_floor(sp_disc(c, r, o, d))) * (
        SCALE as int),
        (d.x * t) % (SCALE as int) == 0,
        (d.y * t) % (SCALE as int) == 0,
        (d.z * t) % (SCALE as int) == 0,
    ensures
        snormsq(svsub(spoint_at(o, d, t), c)) == r * r,
{
    let s = SCALE as int;
    let a = sp_a(d);
    let b = sp_b(c, o, d);
    let cc = sp_c(c, r, o);
    let disc = sp_disc(c, r, o, d);
    let sq = sqrt_floor(disc);
    let oc = svsub(o, c);
    vstd::arithmetic::div_mod::lemma_fundamental_div_mod(d.x * t, s);
    vstd::arithmetic::div_mod::lemma_fundamental_div_mod(d.y * t, s);
    vstd::arithmetic::div_mod::lemma_fundamental_div_mod(d.z * t, s);
    lemma_exact_div_trunc(d.x * t, s, (d.x * t) / s);
    lemma_exact_div_trunc(d.y * t, s, (d.y * t) / s);
    lemma_exact_div_trunc(d.z * t, s, (d.z * t) / s);
    let w = svsub(spoint_at(o, d, t), c);
    assert(s * w.x == s * oc.x + d.x * t && s * w.y == s * oc.y + d.y * t && s * w.z == s * oc.z
        + d.z * t) by (nonlinear_arith)
        requires
            w.x == oc.x + (d.x * t) / s,
            w.y == oc.y + (d.y * t) / s,
            w.z == oc.z + (d.z * t) / s,
            d.x * t == s * ((d.x * t) / s),
            d.y * t == s * ((d.y * t) / s),
            d.z * t == s * ((d.z * t) / s),
    ;
    lemma_square_of_sum(s * w.x, s * oc.x, d.x * t);
    lemma_square_of_sum(s * w.y, s * oc.y, d.y * t);
    lemma_square_of_sum(s * w.z, s * oc.z, d.z * t);
    lemma_monomials(s, t, oc.x, d.x);
    lemma_monomials(s, t, oc.y, d.y);
    lemma_monomials(s, t, oc.z, d.z);
    lemma_scale_square(s, w.x);
    lemma_scale_square(s, w.y);
    lemma_scale_square(s, w.z);
    let q = (t * t) * a + 2 * ((s * t) * b) + (s * s) * cc;
    assert((s * s) * snormsq(w) == (s * s) * (w.x * w.x) + (s * s) * (w.y * w.y) + (s * s) * (
    w.z * w.z)) by (nonlinear_arith)
        requires
            snormsq(w) == w.x * w.x + w.y * w.y + w.z * w.z,
    ;
    assert((s * t) * b == (s * t) * (oc.x * d.x) + (s * t) * (oc.y * d.y) + (s * t) * (oc.z
        * d.z)) by (nonlinear_arith)
        requires
            b == oc.x * d.x + oc.y * d.y + oc.z * d.z,
    ;
    assert((t * t) * a == (t * t) * (d.x * d.x) + (t * t) * (d.y * d.y) + (t * t) * (d.z * d.z))
        by (nonlinear_arith)
        requires
            a == d.x * d.x + d.y * d.y + d.z * d.z,
    ;
    assert((s * s) * cc == (s * s) * (oc.x * oc.x) + (s * s) * (oc.y * oc.y) + (s * s) * (oc.z
        * oc.z) - (s * s) * (r * r)) by (nonlinear_arith)
        requires
            cc == oc.x * oc.x + oc.y * oc.y + oc.z * oc.z - r * r,
    ;
    assert((s * s) * snormsq(w) == q + (s * s) * (r * r));
    let u = a * t;
    assert(a * q == a * ((t * t) * a) + 2 * (a * ((s * t) * b)) + a * ((s * s) * cc))
        by (nonlinear_arith)
        requires
            q == (t * t) * a + 2 * ((s * t) * b) + (s * s) * cc,
    ;
    assert(a * ((t * t) * a) == u * u) by (nonlinear_arith)
        requires
            u == a * t,
    ;
    assert(a * ((s * t) * b) == (s * b) * u) by (nonlinear_arith)
        requires
            u == a * t,
    ;
    assert(a * ((s * s) * cc) == (s * s) * (a * cc)) by (nonlinear_arith);
    if a * t == (-b - sq) * s {
        assert(u * u + 2 * ((s * b) * u) + (s * s) * (a * cc) == 0) by (nonlinear_arith)
            requires
                u == (-b - sq) * s,
                sq * sq == b * b - a * cc,
        ;
    } else {
        assert(u * u + 2 * ((s * b) * u) + (s * s) * (a * cc) == 0) by (nonlinear_arith)
            requires
                u == (-b + sq) * s,
                sq * sq == b * b - a * cc,
        ;
    }
    assert(q == 0) by (nonlinear_arith)
        requires
            a * q == 0,
            a > 0,
    ;
    assert(snormsq(w) == r * r) by (nonlinear_arith)
        requires
            (s * s) * snormsq(w) == q + (s * s) * (r * r),
            q == 0,
            s == 65536,
    ;
}

/// `(y + z)^2` expanded, for `x == y + z`.
proof fn lemma_square_of_sum(x: int, y: int, z: int) by (nonlinear_arith)
    requires
        x == y + z,
    ensures
        x * x == y * y + 2 * (y * z) + z * z,
{
}

/// Monomial regroupings used by the round-trip proof.
proof fn lemma_monomials(s: int, t: int, oc: int, d: int) by (nonlinear_arith)
    ensures
        (s * oc) * (s * oc) == (s * s) * (oc * oc),
        (s * oc) * (d * t) == (s * t) * (oc * d),
        (d * t) * (d * t) == (t * t) * (d * d),
{
}

/// Scaling a square: `s^2 * x^2 == (s * x)^2`.
proof fn lemma_scale_square(s: int, x: int) by (nonlinear_arith)
    ensures
        (s * s) * (x * x) == (s * x) * (s * x),
{
}

/// Narrowing the far end of the search interval to `hi` keeps exactly the
/// hits nearer than `hi` and creates none: the reported distance in
/// `(tmin, hi)` is the reported distance in `(tmin, tmax)` when that one
/// lies below `hi`, and nothing otherwise.
pub proof fn lemma_sphere_hit_narrow(c: V3, r: int, o: V3, d: V3, tmin: int, hi: int, tmax: int)
    requires
        sp_a(d) > 0,
        hi <= tmax,
    ensures
        sphere_hit_t(c, r, o, d, tmin, hi) == (match sphere_hit_t(c, r, o, d, tmin, tmax) {
            Some(t) => if t < hi {
                Some(t)
            } else {
                None::<int>
            },
            None => None::<int>,
        }),
{
    if sp_disc(c, r, o, d) > 0 {
        lemma_sqrt_floor_bounds(sp_disc(c, r, o, d));
        let b = sp_b(c, o, d);
        let sq = sqrt_floor(sp_disc(c, r, o, d));
        assert((-b - sq) * (SCALE as int) <= (-b + sq) * (SCALE as int)) by (nonlinear_arith)
            requires
                sq >= 0,
        ;
        lemma_div_trunc_ordered((-b - sq) * (SCALE as int), (-b + sq) * (SCALE as int), sp_a(d));
    }
}

} // verus!
