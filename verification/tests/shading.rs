use raycast::color::Color;
use raycast::ray::Ray;
use raycast::scene::Scene;
use raycast::scene::Surface;
use raycast::shade::shade;
use raycast::sphere::Sphere;
use raycast::vec3::Vec3;

const S: i64 = 65536;

#[test]
fn straight_up_ray_sees_pure_sky_blue() {
    // unit direction (0,1,0) gives t == 1: exactly the sky color (0.5, 0.7, 1)
    let scene = Scene::new(Vec::new());
    let up = Ray::new(Vec3::new(0, 0, 0), Vec3::new(0, S, 0));
    assert_eq!(shade(&up, &scene), Color::new(32768, 45875, S));
}

#[test]
fn straight_down_ray_sees_white() {
    // unit direction (0,-1,0) gives t == 0: the white end of the gradient
    let scene = Scene::new(Vec::new());
    let down = Ray::new(Vec3::new(0, 0, 0), Vec3::new(0, -S, 0));
    assert_eq!(shade(&down, &scene), Color::new(S, S, S));
}

#[test]
fn horizontal_ray_sees_the_gradient_midpoint() {
    // unit direction (0,0,-1) gives t == 0.5: halfway between white and blue
    let scene = Scene::new(Vec::new());
    let level = Ray::new(Vec3::new(0, 0, 0), Vec3::new(0, 0, -S));
    assert_eq!(shade(&level, &scene), Color::new(49152, 55705, S));
}

#[test]
fn miss_uses_background_even_with_surfaces_present() {
    // a ray pointing away from every surface gets the background, with no
    // contribution from any normal
    let below = Surface::Sphere(Sphere::new(Vec3::new(0, -5 * S, 0), S));
    let scene = Scene::new(vec![below]);
    let up = Ray::new(Vec3::new(0, 0, 0), Vec3::new(0, S, 0));
    assert_eq!(shade(&up, &scene), Color::new(32768, 45875, S));
}

#[test]
fn hit_maps_normal_to_color() {
    // the hit normal (0,0,1) remaps to the color (0.5, 0.5, 1)
    let sphere = Surface::Sphere(Sphere::new(Vec3::new(0, 0, -S), 32768));
    let scene = Scene::new(vec![sphere]);
    let ahead = Ray::new(Vec3::new(0, 0, 0), Vec3::new(0, 0, -S));
    assert_eq!(shade(&ahead, &scene), Color::new(32768, 32768, S));
}

#[test]
fn nearer_surface_decides_the_color() {
    // the exit normal of the enclosing sphere would give a different color;
    // the small sphere in front wins
    let small = Surface::Sphere(Sphere::new(Vec3::new(0, 0, -S), 32768));
    let big = Surface::Sphere(Sphere::new(Vec3::new(0, 0, -4 * S), S));
    let scene = Scene::new(vec![big, small]);
    let ahead = Ray::new(Vec3::new(0, 0, 0), Vec3::new(0, 0, -S));
    assert_eq!(shade(&ahead, &scene), Color::new(32768, 32768, S));
}
