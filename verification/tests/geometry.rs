use raycast::fixed::T_MAX;
use raycast::ray::Ray;
use raycast::scene::Scene;
use raycast::scene::Surface;
use raycast::sphere::Sphere;
use raycast::vec3::Vec3;

const S: i64 = 65536;

fn axis_ray() -> Ray {
    Ray::new(Vec3::new(0, 0, 0), Vec3::new(0, 0, -S))
}

#[test]
fn ray_point_evaluation() {
    let r = Ray::new(Vec3::new(S, 0, -S), Vec3::new(0, 0, -S));
    assert_eq!(r.point_at(32768), Vec3::new(S, 0, -98304));
    assert_eq!(r.point_at(-S), Vec3::new(S, 0, 0));
    assert_eq!(r.point_at(0), Vec3::new(S, 0, -S));
    let d = Ray::default();
    assert_eq!(d.origin, Vec3::new(0, 0, 0));
    assert_eq!(d.direction, Vec3::new(0, 0, 0));
}

#[test]
fn sphere_hit_straight_ahead() {
    // unit ray toward -z against a sphere of radius 0.5 centered one unit away
    let s = Sphere::new(Vec3::new(0, 0, -S), 32768);
    let h = s.hit(&axis_ray(), 0, T_MAX).unwrap();
    assert_eq!(h.t, 32768);
    assert_eq!(h.p, Vec3::new(0, 0, -32768));
    assert_eq!(h.n, Vec3::new(0, 0, S));
}

#[test]
fn sphere_hit_from_inside_reports_exit() {
    // the origin lies inside this radius-2 sphere: the smaller root is
    // negative, so the larger (exit) root at t == 3 is reported
    let s = Sphere::new(Vec3::new(0, 0, -S), 2 * S);
    let h = s.hit(&axis_ray(), 0, T_MAX).unwrap();
    assert_eq!(h.t, 3 * S);
    assert_eq!(h.p, Vec3::new(0, 0, -3 * S));
    assert_eq!(h.n, Vec3::new(0, 0, -S));
}

#[test]
fn sphere_tangent_ray_misses() {
    // the ray grazes the sphere: the discriminant is exactly zero, a miss
    let r = Ray::new(Vec3::new(S, 0, 0), Vec3::new(0, 0, -S));
    let s = Sphere::new(Vec3::new(0, 0, -2 * S), S);
    assert!(s.hit(&r, 0, T_MAX).is_none());
}

#[test]
fn sphere_behind_ray_misses() {
    // both roots are negative: the sphere is behind the origin
    let r = Ray::new(Vec3::new(0, 0, 0), Vec3::new(0, S, 0));
    let s = Sphere::new(Vec3::new(0, -5 * S, 0), S);
    assert!(s.hit(&r, 0, T_MAX).is_none());
}

#[test]
fn sphere_outside_interval_misses() {
    // the hit at t == 0.5 is excluded when the interval ends before it
    let s = Sphere::new(Vec3::new(0, 0, -S), 32768);
    assert!(s.hit(&axis_ray(), 0, 16384).is_none());
    // and when the interval starts after both roots
    assert!(s.hit(&axis_ray(), 2 * S, T_MAX).is_none());
}

#[test]
fn hit_point_lies_on_the_sphere() {
    // round trip: the reported point is one radius away from the center
    let center = Vec3::new(0, 0, -3 * S);
    let s = Sphere::new(center, S);
    let h = s.hit(&axis_ray(), 0, T_MAX).unwrap();
    assert_eq!(h.t, 2 * S);
    let offset = h.p.sub(center);
    assert_eq!(offset.length(), s.radius);
    // the normal is unit length within tolerance
    assert!((h.n.length() - S).abs() <= 4);
}

#[test]
fn scene_reports_nearer_sphere_regardless_of_order() {
    let near = Surface::Sphere(Sphere::new(Vec3::new(0, 0, -2 * S), 32768));
    let far = Surface::Sphere(Sphere::new(Vec3::new(0, 0, -5 * S), 32768));
    let near_first = Scene::new(vec![near, far]);
    let far_first = Scene::new(vec![far, near]);
    let h1 = near_first.hit(&axis_ray(), 0, T_MAX).unwrap();
    let h2 = far_first.hit(&axis_ray(), 0, T_MAX).unwrap();
    assert_eq!(h1.t, 98304);
    assert_eq!(h2.t, 98304);
    assert_eq!(h1, h2);
}

#[test]
fn scene_narrows_past_a_blocked_sphere() {
    // the nearer sphere hides the farther one even when scanned first
    let far = Surface::Sphere(Sphere::new(Vec3::new(0, 0, -5 * S), 32768));
    let near = Surface::Sphere(Sphere::new(Vec3::new(0, 0, -2 * S), 32768));
    let scene = Scene::new(vec![far, near]);
    let h = scene.hit(&axis_ray(), 0, T_MAX).unwrap();
    assert_eq!(h.p, Vec3::new(0, 0, -98304));
}

#[test]
fn scene_misses_when_every_member_misses() {
    let below = Surface::Sphere(Sphere::new(Vec3::new(0, -5 * S, 0), S));
    let scene = Scene::new(vec![below]);
    let up = Ray::new(Vec3::new(0, 0, 0), Vec3::new(0, S, 0));
    assert!(scene.hit(&up, 0, T_MAX).is_none());
}

#[test]
fn empty_scene_always_misses() {
    let scene = Scene::new(Vec::new());
    assert!(scene.hit(&axis_ray(), 0, T_MAX).is_none());
}
