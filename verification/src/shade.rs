use vstd::prelude::*;
use crate::fixed::SCALE;
use crate::fixed::T_MAX;
use crate::fixed::div_trunc;
use crate::fixed::fx_mul;
use crate::fixed::div_i128;
use crate::fixed::lemma_div_trunc_fundamental;
use crate::vec3::V3;
use crate::vec3::sunit;
use crate::vec3::snormsq;
use crate::color::Color;
use crate::color::C3;
use crate::ray::Ray;
use crate::scene::Scene;
use crate::scene::Surface;
use crate::scene::scene_hit;

verus! {

/// The raw value of the scalar 0.5.
pub const HALF_UNIT: i64 = 32768;

/// The raw green channel of the sky color (0.7, rounded toward zero).
pub const SKY_GREEN: i64 = 45875;

/// The color of a hit: each normal component remapped from `[-1, 1]` to
/// `[0, 1]`, that is `0.5 * (n + 1)` per channel, rounding toward zero.
pub open spec fn snormal_color(n: V3) -> C3 {
    C3 {
        r: div_trunc(n.x + SCALE as int, 2),
        g: div_trunc(n.y + SCALE as int, 2),
        b: div_trunc(n.z + SCALE as int, 2),
    }
}

/// The sky gradient for a missed ray: blend white toward sky blue by
/// `t = 0.5 * (unit_direction.y + 1)`.
pub open spec fn sbackground(d: V3) -> C3 {
    let t = div_trunc(sunit(d).y + SCALE as int, 2);
    C3 {
        r: fx_mul(SCALE as int, SCALE as int - t) + fx_mul(HALF_UNIT as int, t),
        g: fx_mul(SCALE as int, SCALE as int - t) + fx_mul(SKY_GREEN as int, t),
        b: fx_mul(SCALE as int, SCALE as int - t) + fx_mul(SCALE as int, t),
    }
}

/// The color a ray sees: the normal-derived color of the nearest surface hit
/// in `(0, T_MAX)`, or the sky gradient when nothing is hit.
pub open spec fn sshade(ss: Seq<Surface>, o: V3, d: V3) -> C3 {
    match scene_hit(ss, o, d, 0, T_MAX as int) {
        Some(p) => snormal_color(ss[p.0].record(o, d, p.1).n),
        None => sbackground(d),
    }
}

/// Map a ray and a scene to a final color: query the scene over the full
/// supported range, then color the hit's normal or the sky gradient. Pure:
/// no side effects.
pub fn shade(ray: &Ray, scene: &Scene) -> (c: Color)
    requires
        scene.wf(),
        ray.wf(),
        snormsq(ray.direction@) > 0,
    ensures
        c@ == sshade(scene.surfaces@, ray.origin@, ray.direction@),
{
    match scene.hit(ray, 0, T_MAX) {
        Some(rec) => {
            proof {
                lemma_div_trunc_fundamental(rec@.n.x + SCALE as int, 2);
                lemma_div_trunc_fundamental(rec@.n.y + SCALE as int, 2);
                lemma_div_trunc_fundamental(rec@.n.z + SCALE as int, 2);
            }
            let r: i128 = div_i128((rec.n.x as i128) + (SCALE as i128), 2);
            let g: i128 = div_i128((rec.n.y as i128) + (SCALE as i128), 2);
            let b: i128 = div_i128((rec.n.z as i128) + (SCALE as i128), 2);
            Color { r: r as i64, g: g as i64, b: b as i64 }
        },
        None => {
            let unit_dir = ray.direction.to_unit_vector();
            proof {
                lemma_div_trunc_fundamental(unit_dir@.y + SCALE as int, 2);
            }
            let t: i64 = div_i128((unit_dir.y as i128) + (SCALE as i128), 2) as i64;
            proof {
                lemma_div_trunc_fundamental((SCALE as int) * (SCALE as int - t as int), SCALE as int);
                lemma_div_trunc_fundamental((HALF_UNIT as int) * (t as int), SCALE as int);
                lemma_div_trunc_fundamental((SKY_GREEN as int) * (t as int), SCALE as int);
                lemma_div_trunc_fundamental((SCALE as int) * (t as int), SCALE as int);
            }
            let white = Color::new(SCALE, SCALE, SCALE);
            let sky = Color::new(HALF_UNIT, SKY_GREEN, SCALE);
            white.mul_scalar(SCALE - t).add(sky.mul_scalar(t))
        },
    }
}

} // verus!
