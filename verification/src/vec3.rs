use vstd::prelude::*;
use crate::fixed::SCALE;
use crate::fixed::COORD_MAX;
use crate::fixed::FX_OP_MAX;
use crate::fixed::div_trunc;
use crate::fixed::fx_mul;
use crate::fixed::fx_div;
use crate::fixed::sqrt_floor;
use crate::fixed::lemma_sqrt_floor_bounds;
use crate::fixed::lemma_div_trunc_fundamental;
use crate::fixed::lemma_div_trunc_bound;
use crate::fixed::div_i128;
use crate::fixed::isqrt_u128;
use crate::fixed::fx_mul_e;
use crate::fixed::fx_div_e;

verus! {

/// Mathematical model of a vector: three unbounded integers, each a raw
/// fixed-point scalar at scale `SCALE`.
pub ghost struct V3 {
    pub x: int,
    pub y: int,
    pub z: int,
}

/// A 3-component vector of fixed-point scalars, used for positions,
/// directions and color channels alike.
#[derive(Clone, Copy, Debug, PartialEq, Eq, Structural)]
pub struct Vec3 {
    pub x: i64,
    pub y: i64,
    pub z: i64,
}

impl View for Vec3 {
    type V = V3;

    open spec fn view(&self) -> V3 {
        V3 { x: self.x as int, y: self.y as int, z: self.z as int }
    }
}

pub open spec fn sabs(x: int) -> int {
    if x >= 0 {
        x
    } else {
        -x
    }
}

/// Component-wise sum.
pub open spec fn svadd(a: V3, b: V3) -> V3 {
    V3 { x: a.x + b.x, y: a.y + b.y, z: a.z + b.z }
}

/// Component-wise difference.
pub open spec fn svsub(a: V3, b: V3) -> V3 {
    V3 { x: a.x - b.x, y: a.y - b.y, z: a.z - b.z }
}

/// Component-wise negation.
pub open spec fn svneg(a: V3) -> V3 {
    V3 { x: -a.x, y: -a.y, z: -a.z }
}

/// Exact inner product of raw components; its scale is `SCALE * SCALE`.
pub open spec fn sdot(a: V3, b: V3) -> int {
    a.x * b.x + a.y * b.y + a.z * b.z
}

/// Exact right-handed cross product of raw components; its scale is
/// `SCALE * SCALE`.
pub open spec fn scross(a: V3, b: V3) -> V3 {
    V3 {
        x: a.y * b.z - a.z * b.y,
        y: a.z * b.x - a.x * b.z,
        z: a.x * b.y - a.y * b.x,
    }
}

/// Rescale a wide (scale `SCALE * SCALE`) vector back to scale `SCALE`,
/// rounding each component toward zero.
pub open spec fn snarrow(a: V3) -> V3 {
    V3 {
        x: div_trunc(a.x, SCALE as int),
        y: div_trunc(a.y, SCALE as int),
        z: div_trunc(a.z, SCALE as int),
    }
}

/// Component-wise (Hadamard) fixed-point product.
pub open spec fn svmul_vec(a: V3, b: V3) -> V3 {
    V3 { x: fx_mul(a.x, b.x), y: fx_mul(a.y, b.y), z: fx_mul(a.z, b.z) }
}

/// Fixed-point scale by a scalar.
pub open spec fn svmul_scalar(a: V3, s: int) -> V3 {
    V3 { x: fx_mul(a.x, s), y: fx_mul(a.y, s), z: fx_mul(a.z, s) }
}

/// Component-wise (Hadamard) fixed-point quotient.
pub open spec fn svdiv_vec(a: V3, b: V3) -> V3 {
    V3 { x: fx_div(a.x, b.x), y: fx_div(a.y, b.y), z: fx_div(a.z, b.z) }
}

/// Fixed-point division by a scalar.
pub open spec fn svdiv_scalar(a: V3, s: int) -> V3 {
    V3 { x: fx_div(a.x, s), y: fx_div(a.y, s), z: fx_div(a.z, s) }
}

/// Raw squared Euclidean norm, at scale `SCALE * SCALE`.
pub open spec fn snormsq(a: V3) -> int {
    sdot(a, a)
}

/// Raw Euclidean norm: the floor square root of the squared norm, which is
/// again a scalar at scale `SCALE`.
pub open spec fn slen(a: V3) -> int {
    sqrt_floor(snormsq(a))
}

/// The unit vector obtained by dividing each component by the length,
/// rounding toward zero; meaningful only for a non-zero vector.
pub open spec fn sunit(a: V3) -> V3 {
    V3 {
        x: div_trunc(a.x * (SCALE as int), slen(a)),
        y: div_trunc(a.y * (SCALE as int), slen(a)),
        z: div_trunc(a.z * (SCALE as int), slen(a)),
    }
}

/// Every component fits the bound the fixed-point multiply and divide accept.
pub open spec fn in_op_range(a: V3) -> bool {
    &&& -(FX_OP_MAX as int) <= a.x <= FX_OP_MAX as int
    &&& -(FX_OP_MAX as int) <= a.y <= FX_OP_MAX as int
    &&& -(FX_OP_MAX as int) <= a.z <= FX_OP_MAX as int
}

/// Every component is a coordinate the geometric engine accepts.
pub open spec fn in_coord_range(a: V3) -> bool {
    &&& -(COORD_MAX as int) <= a.x <= COORD_MAX as int
    &&& -(COORD_MAX as int) <= a.y <= COORD_MAX as int
    &&& -(COORD_MAX as int) <= a.z <= COORD_MAX as int
}

/// Component-wise sums stay within `i64`.
pub open spec fn sum_fits(a: V3, b: V3) -> bool {
    &&& i64::MIN <= a.x + b.x <= i64::MAX
    &&& i64::MIN <= a.y + b.y <= i64::MAX
    &&& i64::MIN <= a.z + b.z <= i64::MAX
}

/// Component-wise differences stay within `i64`.
pub open spec fn diff_fits(a: V3, b: V3) -> bool {
    &&& i64::MIN <= a.x - b.x <= i64::MAX
    &&& i64::MIN <= a.y - b.y <= i64::MAX
    &&& i64::MIN <= a.z - b.z <= i64::MAX
}

/// Product of two scalars bounded by `m` is bounded by `m * m`.
pub proof fn lemma_prod_bound(x: int, y: int, m: int)
    requires
        m >= 0,
        -m <= x <= m,
        -m <= y <= m,
    ensures
        -(m * m) <= x * y <= m * m,
{
    assert(-(m * m) <= x * y <= m * m) by (nonlinear_arith)
        requires
            m >= 0,
            -m <= x <= m,
            -m <= y <= m,
    ;
}

/// The squared norm of a bounded vector is non-negative and small enough for
/// the 128-bit intermediates the executable code uses.
pub proof fn lemma_normsq_bounds(a: V3)
    requires
        in_coord_range(a),
    ensures
        0 <= snormsq(a),
        snormsq(a) <= 3 * (COORD_MAX as int) * (COORD_MAX as int),
{
    assert(0 <= a.x * a.x && a.x * a.x <= (COORD_MAX as int) * (COORD_MAX as int))
        by (nonlinear_arith)
        requires
            -(COORD_MAX as int) <= a.x <= COORD_MAX as int,
    ;
    assert(0 <= a.y * a.y && a.y * a.y <= (COORD_MAX as int) * (COORD_MAX as int))
        by (nonlinear_arith)
        requires
            -(COORD_MAX as int) <= a.y <= COORD_MAX as int,
    ;
    assert(0 <= a.z * a.z && a.z * a.z <= (COORD_MAX as int) * (COORD_MAX as int))
        by (nonlinear_arith)
        requires
            -(COORD_MAX as int) <= a.z <= COORD_MAX as int,
    ;
}

/// Each component of a vector is bounded by the vector's length: from
/// `x * x <= normsq < (len + 1)^2` follows `|x| <= len`.
pub proof fn lemma_component_le_len(a: V3)
    requires
        in_coord_range(a),
    ensures
        sabs(a.x) <= slen(a),
        sabs(a.y) <= slen(a),
        sabs(a.z) <= slen(a),
{
    lemma_normsq_bounds(a);
    lemma_sqrt_floor_bounds(snormsq(a));
    let l = slen(a);
    assert(sabs(a.x) <= l && sabs(a.y) <= l && sabs(a.z) <= l) by (nonlinear_arith)
        requires
            l >= 0,
            a.x * a.x + a.y * a.y + a.z * a.z < (l + 1) * (l + 1),
    ;
}

impl Vec3 {
    pub fn new(x: i64, y: i64, z: i64) -> (v: Vec3)
        ensures
            v@ == (V3 { x: x as int, y: y as int, z: z as int }),
    {
        Vec3 { x, y, z }
    }

    /// Euclidean norm, rounded down to the nearest raw unit.
    pub fn length(&self) -> (r: i64)
        requires
            in_coord_range(self@),
        ensures
            r == slen(self@),
            0 <= r <= COORD_MAX as int * 2,
    {
        proof {
            lemma_prod_bound(self@.x, self@.x, COORD_MAX as int);
            lemma_prod_bound(self@.y, self@.y, COORD_MAX as int);
            lemma_prod_bound(self@.z, self@.z, COORD_MAX as int);
            lemma_normsq_bounds(self@);
            lemma_sqrt_floor_bounds(snormsq(self@));
            assert(slen(self@) <= 2 * (COORD_MAX as int)) by (nonlinear_arith)
                requires
                    slen(self@) >= 0,
                    slen(self@) * slen(self@) <= 3 * (COORD_MAX as int) * (COORD_MAX as int),
            ;
        }
        let xx: i128 = (self.x as i128) * (self.x as i128);
        let yy: i128 = (self.y as i128) * (self.y as i128);
        let zz: i128 = (self.z as i128) * (self.z as i128);
        let ss: i128 = xx + yy + zz;
        let r: u128 = isqrt_u128(ss as u128);
        r as i64
    }

    /// Squared norm, rescaled to an ordinary scalar, rounding toward zero.
    pub fn sum_of_squares(&self) -> (r: i64)
        requires
            in_coord_range(self@),
        ensures
            r == div_trunc(snormsq(self@), SCALE as int),
    {
        proof {
            lemma_prod_bound(self@.x, self@.x, COORD_MAX as int);
            lemma_prod_bound(self@.y, self@.y, COORD_MAX as int);
            lemma_prod_bound(self@.z, self@.z, COORD_MAX as int);
            lemma_normsq_bounds(self@);
            lemma_div_trunc_bound(snormsq(self@), SCALE as int);
        }
        let xx: i128 = (self.x as i128) * (self.x as i128);
        let yy: i128 = (self.y as i128) * (self.y as i128);
        let zz: i128 = (self.z as i128) * (self.z as i128);
        let q: i128 = div_i128(xx + yy + zz, SCALE as i128);
        q as i64
    }

    /// The vector rescaled to unit length. The zero vector has no direction:
    /// callers must not normalize it.
    pub fn to_unit_vector(&self) -> (r: Vec3)
        requires
            in_coord_range(self@),
            snormsq(self@) > 0,
        ensures
            r@ == sunit(self@),
            -(SCALE as int) <= r@.x <= SCALE as int,
            -(SCALE as int) <= r@.y <= SCALE as int,
            -(SCALE as int) <= r@.z <= SCALE as int,
    {
        proof {
            lemma_normsq_bounds(self@);
            lemma_sqrt_floor_bounds(snormsq(self@));
            lemma_component_le_len(self@);
        }
        let len: i64 = self.length();
        proof {
            lemma_unit_component_bound(self@.x, slen(self@));
            lemma_unit_component_bound(self@.y, slen(self@));
            lemma_unit_component_bound(self@.z, slen(self@));
        }
        let ux: i128 = div_i128((self.x as i128) * (SCALE as i128), len as i128);
        let uy: i128 = div_i128((self.y as i128) * (SCALE as i128), len as i128);
        let uz: i128 = div_i128((self.z as i128) * (SCALE as i128), len as i128);
        Vec3 { x: ux as i64, y: uy as i64, z: uz as i64 }
    }

    /// Scalar inner product, rescaled to an ordinary scalar.
    pub fn dot(v1: Vec3, v2: Vec3) -> (r: i64)
        requires
            in_coord_range(v1@),
            in_coord_range(v2@),
        ensures
            r == div_trunc(sdot(v1@, v2@), SCALE as int),
    {
        proof {
            lemma_prod_bound(v1@.x, v2@.x, COORD_MAX as int);
            lemma_prod_bound(v1@.y, v2@.y, COORD_MAX as int);
            lemma_prod_bound(v1@.z, v2@.z, COORD_MAX as int);
            lemma_sdot_bound(v1@, v2@);
            lemma_div_trunc_bound(sdot(v1@, v2@), SCALE as int);
        }
        let xx: i128 = (v1.x as i128) * (v2.x as i128);
        let yy: i128 = (v1.y as i128) * (v2.y as i128);
        let zz: i128 = (v1.z as i128) * (v2.z as i128);
        let q: i128 = div_i128(xx + yy + zz, SCALE as i128);
        q as i64
    }

    /// Right-handed cross product, each component rescaled to an ordinary
    /// scalar, rounding toward zero.
    pub fn cross(v1: Vec3, v2: Vec3) -> (r: Vec3)
        requires
            in_coord_range(v1@),
            in_coord_range(v2@),
        ensures
            r@ == snarrow(scross(v1@, v2@)),
    {
        proof {
            lemma_prod_bound(v1@.y, v2@.z, COORD_MAX as int);
            lemma_prod_bound(v1@.z, v2@.y, COORD_MAX as int);
            lemma_prod_bound(v1@.z, v2@.x, COORD_MAX as int);
            lemma_prod_bound(v1@.x, v2@.z, COORD_MAX as int);
            lemma_prod_bound(v1@.x, v2@.y, COORD_MAX as int);
            lemma_prod_bound(v1@.y, v2@.x, COORD_MAX as int);
            lemma_scross_bound(v1@, v2@);
            lemma_div_trunc_bound(scross(v1@, v2@).x, SCALE as int);
            lemma_div_trunc_bound(scross(v1@, v2@).y, SCALE as int);
            lemma_div_trunc_bound(scross(v1@, v2@).z, SCALE as int);
        }
        let cx: i128 = (v1.y as i128) * (v2.z as i128) - (v1.z as i128) * (v2.y as i128);
        let cy: i128 = (v1.z as i128) * (v2.x as i128) - (v1.x as i128) * (v2.z as i128);
        let cz: i128 = (v1.x as i128) * (v2.y as i128) - (v1.y as i128) * (v2.x as i128);
        let qx: i128 = div_i128(cx, SCALE as i128);
        let qy: i128 = div_i128(cy, SCALE as i128);
        let qz: i128 = div_i128(cz, SCALE as i128);
        Vec3 { x: qx as i64, y: qy as i64, z: qz as i64 }
    }

    /// Component access by index: 0 is x, 1 is y, 2 is z.
    pub fn component(&self, i: usize) -> (r: i64)
        requires
            i < 3,
        ensures
            i == 0 ==> r == self@.x,
            i == 1 ==> r == self@.y,
            i == 2 ==> r == self@.z,
    {
        if i == 0 {
            self.x
        } else if i == 1 {
            self.y
        } else {
            self.z
        }
    }

    pub fn add(self, rhs: Vec3) -> (r: Vec3)
        requires
            sum_fits(self@, rhs@),
        ensures
            r@ == svadd(self@, rhs@),
    {
        Vec3 { x: self.x + rhs.x, y: self.y + rhs.y, z: self.z + rhs.z }
    }

    pub fn sub(self, rhs: Vec3) -> (r: Vec3)
        requires
            diff_fits(self@, rhs@),
        ensures
            r@ == svsub(self@, rhs@),
    {
        Vec3 { x: self.x - rhs.x, y: self.y - rhs.y, z: self.z - rhs.z }
    }

    pub fn neg(self) -> (r: Vec3)
        requires
            self@.x > i64::MIN,
            self@.y > i64::MIN,
            self@.z > i64::MIN,
        ensures
            r@ == svneg(self@),
    {
        Vec3 { x: -self.x, y: -self.y, z: -self.z }
    }

    /// Component-wise (Hadamard) product.
    pub fn mul_vec(self, rhs: Vec3) -> (r: Vec3)
        requires
            in_op_range(self@),
            in_op_range(rhs@),
        ensures
            r@ == svmul_vec(self@, rhs@),
    {
        Vec3 {
            x: fx_mul_e(self.x, rhs.x),
            y: fx_mul_e(self.y, rhs.y),
            z: fx_mul_e(self.z, rhs.z),
        }
    }

    /// Scale by a scalar.
    pub fn mul_scalar(self, rhs: i64) -> (r: Vec3)
        requires
            in_op_range(self@),
            -(FX_OP_MAX as int) <= rhs <= FX_OP_MAX as int,
        ensures
            r@ == svmul_scalar(self@, rhs as int),
    {
        Vec3 { x: fx_mul_e(self.x, rhs), y: fx_mul_e(self.y, rhs), z: fx_mul_e(self.z, rhs) }
    }

    /// Component-wise (Hadamard) quotient; every component of `rhs` must be
    /// non-zero.
    pub fn div_vec(self, rhs: Vec3) -> (r: Vec3)
        requires
            in_op_range(self@),
            rhs@.x != 0,
            rhs@.y != 0,
            rhs@.z != 0,
        ensures
            r@ == svdiv_vec(self@, rhs@),
    {
        Vec3 {
            x: fx_div_e(self.x, rhs.x),
            y: fx_div_e(self.y, rhs.y),
            z: fx_div_e(self.z, rhs.z),
        }
    }

    /// Division by a non-zero scalar.
    pub fn div_scalar(self, rhs: i64) -> (r: Vec3)
        requires
            in_op_range(self@),
            rhs != 0,
        ensures
            r@ == svdiv_scalar(self@, rhs as int),
    {
        Vec3 { x: fx_div_e(self.x, rhs), y: fx_div_e(self.y, rhs), z: fx_div_e(self.z, rhs) }
    }

    pub fn add_assign(&mut self, rhs: Vec3)
        requires
            sum_fits(old(self)@, rhs@),
        ensures
            final(self)@ == svadd(old(self)@, rhs@),
    {
        self.x = self.x + rhs.x;
        self.y = self.y + rhs.y;
        self.z = self.z + rhs.z;
    }

    pub fn sub_assign(&mut self, rhs: Vec3)
        requires
            diff_fits(old(self)@, rhs@),
        ensures
            final(self)@ == svsub(old(self)@, rhs@),
    {
        self.x = self.x - rhs.x;
        self.y = self.y - rhs.y;
        self.z = self.z - rhs.z;
    }

    pub fn mul_assign_vec(&mut self, rhs: Vec3)
        requires
            in_op_range(old(self)@),
            in_op_range(rhs@),
        ensures
            final(self)@ == svmul_vec(old(self)@, rhs@),
    {
        self.x = fx_mul_e(self.x, rhs.x);
        self.y = fx_mul_e(self.y, rhs.y);
        self.z = fx_mul_e(self.z, rhs.z);
    }

    pub fn mul_assign_scalar(&mut self, rhs: i64)
        requires
            in_op_range(old(self)@),
            -(FX_OP_MAX as int) <= rhs <= FX_OP_MAX as int,
        ensures
            final(self)@ == svmul_scalar(old(self)@, rhs as int),
    {
        self.x = fx_mul_e(self.x, rhs);
        self.y = fx_mul_e(self.y, rhs);
        self.z = fx_mul_e(self.z, rhs);
    }

    pub fn div_assign_vec(&mut self, rhs: Vec3)
        requires
            in_op_range(old(self)@),
            rhs@.x != 0,
            rhs@.y != 0,
            rhs@.z != 0,
        ensures
            final(self)@ == svdiv_vec(old(self)@, rhs@),
    {
        self.x = fx_div_e(self.x, rhs.x);
        self.y = fx_div_e(self.y, rhs.y);
        self.z = fx_div_e(self.z, rhs.z);
    }

    pub fn div_assign_scalar(&mut self, rhs: i64)
        requires
            in_op_range(old(self)@),
            rhs != 0,
        ensures
            final(self)@ == svdiv_scalar(old(self)@, rhs as int),
    {
        self.x = fx_div_e(self.x, rhs);
        self.y = fx_div_e(self.y, rhs);
        self.z = fx_div_e(self.z, rhs);
    }
}

impl Default for Vec3 {
    /// The zero vector.
    fn default() -> (v: Vec3)
        ensures
            v@ == (V3 { x: 0, y: 0, z: 0 }),
    {
        Vec3 { x: 0, y: 0, z: 0 }
    }
}

/// A component of `v` scaled by `SCALE` and divided by a length bounding it
/// stays within one whole unit.
proof fn lemma_unit_component_bound(x: int, l: int)
    requires
        l >= 1,
        sabs(x) <= l,
    ensures
        -(SCALE as int) <= div_trunc(x * (SCALE as int), l) <= SCALE as int,
{
    lemma_div_trunc_fundamental(x * (SCALE as int), l);
    let q = div_trunc(x * (SCALE as int), l);
    assert(-(l * (SCALE as int)) <= x * (SCALE as int) <= l * (SCALE as int))
        by (nonlinear_arith)
        requires
            sabs(x) <= l,
    ;
    assert(-(SCALE as int) <= q <= SCALE as int) by (nonlinear_arith)
        requires
            l >= 1,
            -(l * (SCALE as int)) <= l * q <= l * (SCALE as int) + (l - 1),
            l * q <= x * (SCALE as int) + (l - 1),
            x * (SCALE as int) - (l - 1) <= l * q,
            -(l * (SCALE as int)) <= x * (SCALE as int) <= l * (SCALE as int),
    ;
}

/// Inner products of coordinate-bounded vectors stay well within the 128-bit
/// intermediates the executable code uses.
pub proof fn lemma_sdot_bound(a: V3, b: V3)
    requires
        in_coord_range(a),
        in_coord_range(b),
    ensures
        -(3 * (COORD_MAX as int) * (COORD_MAX as int)) <= sdot(a, b),
        sdot(a, b) <= 3 * (COORD_MAX as int) * (COORD_MAX as int),
{
    let m = COORD_MAX as int;
    assert(-(m * m) <= a.x * b.x <= m * m) by (nonlinear_arith)
        requires
            -m <= a.x <= m,
            -m <= b.x <= m,
    ;
    assert(-(m * m) <= a.y * b.y <= m * m) by (nonlinear_arith)
        requires
            -m <= a.y <= m,
            -m <= b.y <= m,
    ;
    assert(-(m * m) <= a.z * b.z <= m * m) by (nonlinear_arith)
        requires
            -m <= a.z <= m,
            -m <= b.z <= m,
    ;
}

/// Cross products of coordinate-bounded vectors stay within the 128-bit
/// intermediates the executable code uses.
pub proof fn lemma_scross_bound(a: V3, b: V3)
    requires
        in_coord_range(a),
        in_coord_range(b),
    ensures
        sabs(scross(a, b).x) <= 2 * (COORD_MAX as int) * (COORD_MAX as int),
        sabs(scross(a, b).y) <= 2 * (COORD_MAX as int) * (COORD_MAX as int),
        sabs(scross(a, b).z) <= 2 * (COORD_MAX as int) * (COORD_MAX as int),
{
    let m = COORD_MAX as int;
    assert(-(m * m) <= a.y * b.z <= m * m && -(m * m) <= a.z * b.y <= m * m && -(m * m) <= a.z
        * b.x <= m * m && -(m * m) <= a.x * b.z <= m * m && -(m * m) <= a.x * b.y <= m * m && -(
    m * m) <= a.y * b.x <= m * m) by (nonlinear_arith)
        requires
            -m <= a.x <= m,
            -m <= a.y <= m,
            -m <= a.z <= m,
            -m <= b.x <= m,
            -m <= b.y <= m,
            -m <= b.z <= m,
    ;
}

/// One squared component of a normalized vector, scaled by the squared
/// length, stays within the rounding slack of the exact rescaled square.
proof fn lemma_unit_sq_bounds(vi: int, l: int, s: int, ui: int) by (nonlinear_arith)
    requires
        l >= 1,
        s >= 1,
        sabs(vi) <= l,
        -(l - 1) <= vi * s - l * ui,
        vi * s - l * ui <= l - 1,
    ensures
        l * l * (ui * ui) <= vi * vi * (s * s) + 2 * s * (l * l) + l * l,
        l * l * (ui * ui) >= vi * vi * (s * s) - 2 * s * (l * l),
{
}

/// Normalizing any vector of at least unit length yields a vector whose
/// measured length is within 4 raw units (about 6e-5) of one: rounding each
/// component toward zero and flooring the square root lose less than that.
/// Vectors shorter than one raw-unit square lose too much precision for this
/// bound and are excluded.
pub proof fn lemma_unit_vector_length(v: V3)
    requires
        in_coord_range(v),
        snormsq(v) >= (SCALE as int) * (SCALE as int),
    ensures
        SCALE as int - 4 <= slen(sunit(v)),
        slen(sunit(v)) <= SCALE as int + 4,
{
    let s = SCALE as int;
    lemma_normsq_bounds(v);
    lemma_sqrt_floor_bounds(snormsq(v));
    let l = slen(v);
    assert(l >= 65536) by (nonlinear_arith)
        requires
            snormsq(v) >= 4294967296,
            snormsq(v) < (l + 1) * (l + 1),
            l >= 0,
            s == 65536,
            snormsq(v) >= s * s,
    ;
    lemma_component_le_len(v);
    let u = sunit(v);
    lemma_div_trunc_fundamental(v.x * s, l);
    lemma_div_trunc_fundamental(v.y * s, l);
    lemma_div_trunc_fundamental(v.z * s, l);
    lemma_unit_sq_bounds(v.x, l, s, u.x);
    lemma_unit_sq_bounds(v.y, l, s, u.y);
    lemma_unit_sq_bounds(v.z, l, s, u.z);
    let ssu = snormsq(u);
    let ssv = snormsq(v);
    assert(l * l * ssu == l * l * (u.x * u.x) + l * l * (u.y * u.y) + l * l * (u.z * u.z))
        by (nonlinear_arith)
        requires
            ssu == u.x * u.x + u.y * u.y + u.z * u.z,
    ;
    assert(s * s * ssv == v.x * v.x * (s * s) + v.y * v.y * (s * s) + v.z * v.z * (s * s))
        by (nonlinear_arith)
        requires
            ssv == v.x * v.x + v.y * v.y + v.z * v.z,
    ;
    assert(l * l * ssu <= s * s * ssv + 6 * s * (l * l) + 3 * (l * l) && l * l * ssu >= s * s
        * ssv - 6 * s * (l * l)) by (nonlinear_arith)
        requires
            l * l * ssu == l * l * (u.x * u.x) + l * l * (u.y * u.y) + l * l * (u.z * u.z),
            s * s * ssv == v.x * v.x * (s * s) + v.y * v.y * (s * s) + v.z * v.z * (s * s),
            l * l * (u.x * u.x) <= v.x * v.x * (s * s) + 2 * s * (l * l) + l * l,
            l * l * (u.x * u.x) >= v.x * v.x * (s * s) - 2 * s * (l * l),
            l * l * (u.y * u.y) <= v.y * v.y * (s * s) + 2 * s * (l * l) + l * l,
            l * l * (u.y * u.y) >= v.y * v.y * (s * s) - 2 * s * (l * l),
            l * l * (u.z * u.z) <= v.z * v.z * (s * s) + 2 * s * (l * l) + l * l,
            l * l * (u.z * u.z) >= v.z * v.z * (s * s) - 2 * s * (l * l),
    ;
    assert(ssu >= s * s - 6 * s && ssu <= s * s + 8 * s + 3) by (nonlinear_arith)
        requires
            s == 65536,
            l >= s,
            l * l <= ssv,
            ssv < (l + 1) * (l + 1),
            l * l * ssu <= s * s * ssv + 6 * s * (l * l) + 3 * (l * l),
            l * l * ssu >= s * s * ssv - 6 * s * (l * l),
    ;
    lemma_sqrt_floor_bounds(ssu);
    let lu = sqrt_floor(ssu);
    assert(s - 4 <= lu && lu <= s + 4) by (nonlinear_arith)
        requires
            s == 65536,
            lu >= 0,
            lu * lu <= ssu,
            ssu < (lu + 1) * (lu + 1),
            ssu >= s * s - 6 * s,
            ssu <= s * s + 8 * s + 3,
    ;
}

/// The exact cross product is orthogonal to both of its factors.
pub proof fn lemma_cross_orthogonal_exact(a: V3, b: V3)
    ensures
        sdot(scross(a, b), a) == 0,
        sdot(scross(a, b), b) == 0,
{
    assert((a.y * b.z - a.z * b.y) * a.x + (a.z * b.x - a.x * b.z) * a.y + (a.x * b.y - a.y
        * b.x) * a.z == 0) by (nonlinear_arith);
    assert((a.y * b.z - a.z * b.y) * b.x + (a.z * b.x - a.x * b.z) * b.y + (a.x * b.y - a.y
        * b.x) * b.z == 0) by (nonlinear_arith);
}

/// The computed (rescaled and rounded) cross product deviates from exact
/// orthogonality by less than one raw unit per unit of the other factor's
/// component magnitudes.
pub proof fn lemma_cross_orthogonal_rounded(a: V3, b: V3)
    ensures
        sabs(sdot(snarrow(scross(a, b)), a)) <= sabs(a.x) + sabs(a.y) + sabs(a.z),
        sabs(sdot(snarrow(scross(a, b)), b)) <= sabs(b.x) + sabs(b.y) + sabs(b.z),
{
    lemma_cross_orthogonal_exact(a, b);
    lemma_cross_rounding_error(scross(a, b), a, sdot(scross(a, b), a));
    lemma_cross_rounding_error(scross(a, b), b, sdot(scross(a, b), b));
}

/// Rounding each component of a wide vector `w` toward zero changes its
/// inner product with `v` by at most `(SCALE - 1)` per unit of `v`'s
/// component magnitudes.
proof fn lemma_cross_rounding_error(w: V3, v: V3, exact: int)
    requires
        exact == 0,
        sdot(w, v) == exact,
    ensures
        sabs(sdot(snarrow(w), v)) <= sabs(v.x) + sabs(v.y) + sabs(v.z),
{
    let s = SCALE as int;
    let c = snarrow(w);
    lemma_div_trunc_fundamental(w.x, s);
    lemma_div_trunc_fundamental(w.y, s);
    lemma_div_trunc_fundamental(w.z, s);
    let ex = w.x - s * c.x;
    let ey = w.y - s * c.y;
    let ez = w.z - s * c.z;
    assert(s * (c.x * v.x) == w.x * v.x - ex * v.x) by (nonlinear_arith)
        requires
            ex == w.x - s * c.x,
    ;
    assert(s * (c.y * v.y) == w.y * v.y - ey * v.y) by (nonlinear_arith)
        requires
            ey == w.y - s * c.y,
    ;
    assert(s * (c.z * v.z) == w.z * v.z - ez * v.z) by (nonlinear_arith)
        requires
            ez == w.z - s * c.z,
    ;
    assert(sabs(ex * v.x) <= (s - 1) * sabs(v.x)) by (nonlinear_arith)
        requires
            -(s - 1) <= ex <= s - 1,
            s >= 1,
    ;
    assert(sabs(ey * v.y) <= (s - 1) * sabs(v.y)) by (nonlinear_arith)
        requires
            -(s - 1) <= ey <= s - 1,
            s >= 1,
    ;
    assert(sabs(ez * v.z) <= (s - 1) * sabs(v.z)) by (nonlinear_arith)
        requires
            -(s - 1) <= ez <= s - 1,
            s >= 1,
    ;
    assert(s * sdot(c, v) == s * (c.x * v.x) + s * (c.y * v.y) + s * (c.z * v.z))
        by (nonlinear_arith);
    assert(sabs(sdot(c, v)) <= sabs(v.x) + sabs(v.y) + sabs(v.z)) by (nonlinear_arith)
        requires
            s == 65536,
            s * sdot(c, v) == (w.x * v.x + w.y * v.y + w.z * v.z) - (ex * v.x + ey * v.y + ez
                * v.z),
            w.x * v.x + w.y * v.y + w.z * v.z == 0,
            sabs(ex * v.x) <= (s - 1) * sabs(v.x),
            sabs(ey * v.y) <= (s - 1) * sabs(v.y),
            sabs(ez * v.z) <= (s - 1) * sabs(v.z),
    ;
}

} // verus!
