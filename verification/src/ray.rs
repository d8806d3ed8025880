use vstd::prelude::*;
use crate::fixed::SCALE;
use crate::fixed::COORD_MAX;
use crate::fixed::T_MAX;
use crate::fixed::fx_mul;
use crate::fixed::lemma_div_trunc_fundamental;
use crate::vec3::Vec3;
use crate::vec3::V3;
use crate::vec3::svadd;
use crate::vec3::svmul_scalar;
use crate::vec3::in_coord_range;

verus! {

/// A ray: the parametric line `point(t) = origin + direction * t`.
#[derive(Clone, Copy, Debug, PartialEq, Eq, Structural)]
pub struct Ray {
    pub origin: Vec3,
    pub direction: Vec3,
}

/// The point the ray reaches at parametric distance `t`: origin plus the
/// direction scaled by `t`, each component rounded toward zero.
pub open spec fn spoint_at(o: V3, d: V3, t: int) -> V3 {
    svadd(o, svmul_scalar(d, t))
}

/// A fixed-point scale of a coordinate by a parametric distance stays within
/// one raw unit of four levels above the coordinate range.
pub proof fn lemma_point_component_bound(d: int, t: int)
    requires
        -(COORD_MAX as int) <= d <= COORD_MAX as int,
        -(T_MAX as int) <= t <= T_MAX as int,
    ensures
        -17592186044416 <= fx_mul(d, t) <= 17592186044416,
{
    assert(-1152921504606846976 <= d * t <= 1152921504606846976) by (nonlinear_arith)
        requires
            -(COORD_MAX as int) <= d <= COORD_MAX as int,
            -(T_MAX as int) <= t <= T_MAX as int,
    ;
    lemma_div_trunc_fundamental(d * t, SCALE as int);
}

impl Ray {
    /// Origin and direction are within the coordinate range the engine
    /// accepts.
    pub open spec fn wf(&self) -> bool {
        &&& in_coord_range(self.origin@)
        &&& in_coord_range(self.direction@)
    }

    pub fn new(origin: Vec3, direction: Vec3) -> (r: Ray)
        ensures
            r.origin == origin,
            r.direction == direction,
    {
        Ray { origin, direction }
    }

    /// Evaluate the parametric line at `t`; `t` may be negative or beyond
    /// any surface, callers bound the range.
    pub fn point_at(&self, t: i64) -> (p: Vec3)
        requires
            self.wf(),
            -(T_MAX as int) <= t <= T_MAX as int,
        ensures
            p@ == spoint_at(self.origin@, self.direction@, t as int),
            -35184372088832 <= p@.x <= 35184372088832,
            -35184372088832 <= p@.y <= 35184372088832,
            -35184372088832 <= p@.z <= 35184372088832,
    {
        proof {
            lemma_point_component_bound(self.direction@.x, t as int);
            lemma_point_component_bound(self.direction@.y, t as int);
            lemma_point_component_bound(self.direction@.z, t as int);
        }
        self.origin.add(self.direction.mul_scalar(t))
    }
}

impl Default for Ray {
    /// A ray at the origin with no direction; it must be given a direction
    /// before it is traced.
    fn default() -> (r: Ray)
        ensures
            r.origin@ == (V3 { x: 0, y: 0, z: 0 }),
            r.direction@ == (V3 { x: 0, y: 0, z: 0 }),
    {
        Ray { origin: Vec3 { x: 0, y: 0, z: 0 }, direction: Vec3 { x: 0, y: 0, z: 0 } }
    }
}

} // verus!
