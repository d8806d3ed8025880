use vstd::prelude::*;
use crate::fixed::T_MAX;
use crate::vec3::V3;
use crate::vec3::snormsq;
use crate::ray::Ray;
use crate::hit::HitRecord;
use crate::hit::HitV;
use crate::sphere::Sphere;
use crate::sphere::sphere_hit_t;
use crate::sphere::sphere_record;
use crate::sphere::lemma_sphere_hit_narrow;

verus! {

/// A surface that can be intersected by a ray: the closed set of shape
/// kinds, dispatched through a match. Today the only shape is the sphere.
#[derive(Clone, Copy, Debug, PartialEq, Eq, Structural)]
pub enum Surface {
    Sphere(Sphere),
}

impl Surface {
    pub open spec fn wf(&self) -> bool {
        match self {
            Surface::Sphere(s) => s.wf(),
        }
    }

    /// The parametric distance this surface reports for a ray `(o, d)` and
    /// an open search interval `(tmin, tmax)`.
    pub open spec fn hit_t(&self, o: V3, d: V3, tmin: int, tmax: int) -> Option<int> {
        match self {
            Surface::Sphere(s) => sphere_hit_t(s.center@, s.radius as int, o, d, tmin, tmax),
        }
    }

    /// The record this surface reports for a hit at distance `t`.
    pub open spec fn record(&self, o: V3, d: V3, t: int) -> HitV {
        match self {
            Surface::Sphere(s) => sphere_record(s.center@, s.radius as int, o, d, t),
        }
    }

    /// Intersect the ray with this surface inside the open interval
    /// `(t_min, t_max)`.
    pub fn hit(&self, ray: &Ray, t_min: i64, t_max: i64) -> (res: Option<HitRecord>)
        requires
            self.wf(),
            ray.wf(),
            snormsq(ray.direction@) > 0,
            -(T_MAX as int) <= t_min <= T_MAX as int,
            -(T_MAX as int) <= t_max <= T_MAX as int,
        ensures
            match res {
                Some(h) => {
                    &&& self.hit_t(ray.origin@, ray.direction@, t_min as int, t_max as int)
                        == Some(h@.t)
                    &&& h@ == self.record(ray.origin@, ray.direction@, h@.t)
                    &&& t_min < h@.t < t_max
                },
                None => self.hit_t(ray.origin@, ray.direction@, t_min as int, t_max as int)
                    is None,
            },
    {
        match self {
            Surface::Sphere(s) => s.hit(ray, t_min, t_max),
        }
    }
}

/// A reported hit lies strictly inside the queried interval.
pub proof fn lemma_surface_hit_in_interval(
    s: Surface,
    o: V3,
    d: V3,
    tmin: int,
    tmax: int,
    t: int,
)
    requires
        s.hit_t(o, d, tmin, tmax) == Some(t),
    ensures
        tmin < t < tmax,
{
}

/// Narrowing the far end of the search interval to `hi` keeps exactly the
/// hits nearer than `hi`, whatever the surface.
pub proof fn lemma_surface_hit_narrow(
    s: Surface,
    o: V3,
    d: V3,
    tmin: int,
    hi: int,
    tmax: int,
)
    requires
        snormsq(d) > 0,
        hi <= tmax,
    ensures
        s.hit_t(o, d, tmin, hi) == (match s.hit_t(o, d, tmin, tmax) {
            Some(t) => if t < hi {
                Some(t)
            } else {
                None::<int>
            },
            None => None::<int>,
        }),
{
    match s {
        Surface::Sphere(sp) => {
            lemma_sphere_hit_narrow(sp.center@, sp.radius as int, o, d, tmin, hi, tmax);
        },
    }
}

/// What the single-pass narrowing scan reports for a sequence of surfaces:
/// the surfaces before the last are scanned first, and the last surface is
/// then queried with the interval narrowed to the best hit so far. The
/// result is the winning surface's index and its parametric distance.
pub open spec fn scene_hit(ss: Seq<Surface>, o: V3, d: V3, tmin: int, tmax: int) -> Option<
    (int, int),
>
    decreases ss.len(),
{
    if ss.len() == 0 {
        None
    } else {
        let prev = scene_hit(ss.drop_last(), o, d, tmin, tmax);
        let hi = match prev {
            Some(p) => p.1,
            None => tmax,
        };
        match ss.last().hit_t(o, d, tmin, hi) {
            Some(t) => Some((ss.len() - 1, t)),
            None => prev,
        }
    }
}

/// The distance component of a scan result.
pub open spec fn scene_hit_distance(r: Option<(int, int)>) -> Option<int> {
    match r {
        Some(p) => Some(p.1),
        None => None,
    }
}

/// The narrowing scan reports a miss exactly when every surface misses the
/// full interval; otherwise it reports a surface whose hit, measured against
/// the full interval, is no farther than any other surface's, and the first
/// such surface on an exact tie.
pub proof fn lemma_scene_hit_characterization(
    ss: Seq<Surface>,
    o: V3,
    d: V3,
    tmin: int,
    tmax: int,
)
    requires
        snormsq(d) > 0,
    ensures
        match scene_hit(ss, o, d, tmin, tmax) {
            None => forall|j: int|
                0 <= j < ss.len() ==> (#[trigger] ss[j].hit_t(o, d, tmin, tmax)) is None,
            Some(p) => {
                &&& 0 <= p.0 < ss.len()
                &&& ss[p.0].hit_t(o, d, tmin, tmax) == Some(p.1)
                &&& tmin < p.1 < tmax
                &&& forall|j: int|
                    0 <= j < ss.len() ==> match #[trigger] ss[j].hit_t(o, d, tmin, tmax) {
                        Some(u) => u >= p.1,
                        None => true,
                    }
                &&& forall|j: int|
                    0 <= j < p.0 ==> match #[trigger] ss[j].hit_t(o, d, tmin, tmax) {
                        Some(u) => u > p.1,
                        None => true,
                    }
            },
        },
    decreases ss.len(),
{
    if ss.len() > 0 {
        let pre = ss.drop_last();
        lemma_scene_hit_characterization(pre, o, d, tmin, tmax);
        assert(forall|j: int| 0 <= j < pre.len() ==> ss[j] == pre[j]);
        let prev = scene_hit(pre, o, d, tmin, tmax);
        let hi = match prev {
            Some(p) => p.1,
            None => tmax,
        };
        if prev is Some {
            lemma_surface_hit_in_interval(
                ss[prev->Some_0.0],
                o,
                d,
                tmin,
                tmax,
                prev->Some_0.1,
            );
        }
        lemma_surface_hit_narrow(ss.last(), o, d, tmin, hi, tmax);
        match ss.last().hit_t(o, d, tmin, tmax) {
            Some(t) => {
                lemma_surface_hit_in_interval(ss.last(), o, d, tmin, tmax, t);
            },
            None => {},
        }
    }
}

/// An ordered aggregate of surfaces, itself answering the same intersection
/// query by delegating to every member and keeping the closest hit. Built
/// once, then read-only.
pub struct Scene {
    pub surfaces: Vec<Surface>,
}

impl Scene {
    pub open spec fn wf(&self) -> bool {
        forall|k: int| 0 <= k < self.surfaces@.len() ==> (#[trigger] self.surfaces@[k]).wf()
    }

    pub fn new(surfaces: Vec<Surface>) -> (s: Scene)
        ensures
            s.surfaces == surfaces,
    {
        Scene { surfaces }
    }

    /// Intersect the ray with every member surface and report the hit
    /// nearest to `t_min` inside the open interval `(t_min, t_max)`: a
    /// single pass that narrows the interval to the best hit found so far.
    pub fn hit(&self, ray: &Ray, t_min: i64, t_max: i64) -> (res: Option<HitRecord>)
        requires
            self.wf(),
            ray.wf(),
            snormsq(ray.direction@) > 0,
            -(T_MAX as int) <= t_min <= T_MAX as int,
            -(T_MAX as int) <= t_max <= T_MAX as int,
        ensures
            match res {
                None => {
                    &&& scene_hit(
                        self.surfaces@,
                        ray.origin@,
                        ray.direction@,
                        t_min as int,
                        t_max as int,
                    ) is None
                    &&& forall|j: int|
                        0 <= j < self.surfaces@.len() ==> (#[trigger] self.surfaces@[j].hit_t(
                            ray.origin@,
                            ray.direction@,
                            t_min as int,
                            t_max as int,
                        )) is None
                },
                Some(h) => {
                    &&& match scene_hit(
                        self.surfaces@,
                        ray.origin@,
                        ray.direction@,
                        t_min as int,
                        t_max as int,
                    ) {
                        Some(p) => p.1 == h@.t && h@ == self.surfaces@[p.0].record(
                            ray.origin@,
                            ray.direction@,
                            p.1,
                        ),
                        None => false,
                    }
                    &&& t_min < h@.t < t_max
                    &&& forall|j: int|
                        0 <= j < self.surfaces@.len() ==> match #[trigger] self.surfaces@[j].hit_t(
                            ray.origin@,
                            ray.direction@,
                            t_min as int,
                            t_max as int,
                        ) {
                            Some(u) => u >= h@.t,
                            None => true,
                        }
                },
            },
    {
        let ghost o = ray.origin@;
        let ghost d = ray.direction@;
        let n = self.surfaces.len();
        let mut found: Option<HitRecord> = None;
        let mut closest: i64 = t_max;
        let ghost mut wi: int = 0;
        let mut i: usize = 0;
        while i < n
            invariant
                self.wf(),
                ray.wf(),
                snormsq(d) > 0,
                o == ray.origin@,
                d == ray.direction@,
                n == self.surfaces@.len(),
                0 <= i <= n,
                -(T_MAX as int) <= t_min <= T_MAX as int,
                -(T_MAX as int) <= t_max <= T_MAX as int,
                -(T_MAX as int) <= closest <= T_MAX as int,
                match found {
                    None => {
                        &&& scene_hit(
                            self.surfaces@.take(i as int),
                            o,
                            d,
                            t_min as int,
                            t_max as int,
                        ) is None
                        &&& closest == t_max
                    },
                    Some(h) => {
                        &&& scene_hit(
                            self.surfaces@.take(i as int),
                            o,
                            d,
                            t_min as int,
                            t_max as int,
                        ) == Some((wi, h@.t))
                        &&& 0 <= wi < i
                        &&& h@ == self.surfaces@[wi].record(o, d, h@.t)
                        &&& closest == h@.t
                        &&& t_min < h@.t < t_max
                    },
                },
            decreases n - i,
        {
            let s = &self.surfaces[i];
            let ghost prefix = self.surfaces@.take(i as int);
            let stepped = s.hit(ray, t_min, closest);
            proof {
                assert(self.surfaces@.take(i + 1 as int).drop_last() =~= prefix);
                assert(self.surfaces@.take(i + 1 as int).last() == self.surfaces@[i as int]);
            }
            match stepped {
                Some(h2) => {
                    found = Some(h2);
                    closest = h2.t;
                    proof {
                        wi = i as int;
                    }
                },
                None => {},
            }
            i = i + 1;
        }
        proof {
            assert(self.surfaces@.take(n as int) =~= self.surfaces@);
            lemma_scene_hit_characterization(self.surfaces@, o, d, t_min as int, t_max as int);
        }
        found
    }
}

/// Insertion order does not change the outcome: a scene of two surfaces
/// reports the same nearest distance (or the same miss) in either order.
pub proof fn lemma_two_surfaces_order_independent(
    a: Surface,
    b: Surface,
    o: V3,
    d: V3,
    tmin: int,
    tmax: int,
)
    requires
        snormsq(d) > 0,
    ensures
        scene_hit_distance(scene_hit(seq![a, b], o, d, tmin, tmax)) == scene_hit_distance(
            scene_hit(seq![b, a], o, d, tmin, tmax),
        ),
{
    let s1 = seq![a, b];
    let s2 = seq![b, a];
    lemma_scene_hit_characterization(s1, o, d, tmin, tmax);
    lemma_scene_hit_characterization(s2, o, d, tmin, tmax);
    assert(s1[0] == a && s1[1] == b && s2[0] == b && s2[1] == a);
    match scene_hit(s1, o, d, tmin, tmax) {
        Some(p) => {
            match scene_hit(s2, o, d, tmin, tmax) {
                Some(q) => {
                    assert(s2[if p.0 == 0 {
                        1int
                    } else {
                        0int
                    }] == s1[p.0]);
                    assert(s1[if q.0 == 0 {
                        1int
                    } else {
                        0int
                    }] == s2[q.0]);
                    assert(p.1 >= q.1 && q.1 >= p.1);
                },
                None => {
                    assert(s2[if p.0 == 0 {
                        1int
                    } else {
                        0int
                    }] == s1[p.0]);
                    assert(false);
                },
            }
        },
        None => {
            match scene_hit(s2, o, d, tmin, tmax) {
                Some(q) => {
                    assert(s1[if q.0 == 0 {
                        1int
                    } else {
                        0int
                    }] == s2[q.0]);
                    assert(false);
                },
                None => {},
            }
        },
    }
}

} // verus!
