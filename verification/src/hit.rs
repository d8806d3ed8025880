use vstd::prelude::*;
use crate::vec3::Vec3;
use crate::vec3::V3;

verus! {

/// Mathematical model of an intersection: parametric distance, hit point and
/// outward unit normal, all as unbounded raw integers.
pub ghost struct HitV {
    pub t: int,
    pub p: V3,
    pub n: V3,
}

/// A successful intersection: the parametric distance along the ray, the
/// world-space hit point, and the outward surface normal at that point.
/// Transient: produced by an intersection query and consumed by shading.
#[derive(Clone, Copy, Debug, PartialEq, Eq, Structural)]
pub struct HitRecord {
    pub t: i64,
    pub p: Vec3,
    pub n: Vec3,
}

impl View for HitRecord {
    type V = HitV;

    open spec fn view(&self) -> HitV {
        HitV { t: self.t as int, p: self.p@, n: self.n@ }
    }
}

} // verus!
