// Scenario tests for the intersection engine and the shading policy.
// Fixed point: a raw value of 65536 stands for the real number 1.

use raytrace::color::{colorize, Color};
use raytrace::hit::Hittable;
use raytrace::interval::{Interval, T_MAX};
use raytrace::list::{HittableList, Primitive};
use raytrace::ray::Ray;
use raytrace::sphere::Sphere;
use raytrace::tri::Tri;
use raytrace::vec3::Vec3;

const S: i128 = 65536;

fn v(x: i128, y: i128, z: i128) -> Vec3 {
    Vec3 { x, y, z }
}

fn unit_sphere_scene() -> (Sphere, Ray) {
    let sphere = Sphere { centre: v(0, 0, -S), radius: S / 2 };
    let ray = Ray { origin: v(0, 0, 0), direction: v(0, 0, -S) };
    (sphere, ray)
}

#[test]
fn interval_contains_is_closed_surrounds_is_open() {
    let itv = Interval { min: 0, max: 10 * S };
    assert!(itv.contains(0));
    assert!(itv.contains(10 * S));
    assert!(!itv.surrounds(0));
    assert!(!itv.surrounds(10 * S));
    assert!(itv.surrounds(5 * S));
    assert_eq!(itv.size(), 10 * S);
}

#[test]
fn sphere_head_on_hit() {
    let (sphere, ray) = unit_sphere_scene();
    let hit = sphere.hit(&ray, &Interval { min: 0, max: T_MAX }).unwrap();
    assert_eq!(hit.t, S / 2);
    assert_eq!(hit.pos, v(0, 0, -S / 2));
    assert_eq!(hit.normal, v(0, 0, S));
    assert!(hit.frontface);
}

#[test]
fn sphere_interval_excluding_root_misses() {
    let (sphere, ray) = unit_sphere_scene();
    // [0, 0.4): the true root 0.5 lies beyond the upper bound.
    assert!(sphere.hit(&ray, &Interval { min: 0, max: 26214 }).is_none());
}

#[test]
fn sphere_behind_ray_misses() {
    let sphere = Sphere { centre: v(0, 0, S), radius: S / 2 };
    let ray = Ray { origin: v(0, 0, 0), direction: v(0, 0, -S) };
    assert!(sphere.hit(&ray, &Interval { min: 0, max: T_MAX }).is_none());
}

#[test]
fn sphere_hit_from_inside_takes_far_root_and_flips_normal() {
    // Ray cast from the centre: the near root is behind the ray and the
    // far root is taken; the outward normal points with the ray, so the
    // stored normal is flipped and the hit is back-faced.
    let sphere = Sphere { centre: v(0, 0, 0), radius: S };
    let ray = Ray { origin: v(0, 0, 0), direction: v(0, 0, -S) };
    let hit = sphere.hit(&ray, &Interval { min: 0, max: T_MAX }).unwrap();
    assert_eq!(hit.t, S);
    assert_eq!(hit.pos, v(0, 0, -S));
    assert_eq!(hit.normal, v(0, 0, S));
    assert!(!hit.frontface);
}

#[test]
fn sphere_tangent_ray_registers_one_hit() {
    // The ray grazes the sphere: the discriminant is exactly zero and the
    // single root is reported; the tangent point lies exactly on the
    // sphere.
    let sphere = Sphere { centre: v(0, 0, -S), radius: S / 2 };
    let ray = Ray { origin: v(0, S / 2, 0), direction: v(0, 0, -S) };
    let hit = sphere.hit(&ray, &Interval { min: 0, max: T_MAX }).unwrap();
    assert_eq!(hit.t, S);
    assert_eq!(hit.pos, v(0, S / 2, -S));
    let pc = hit.pos.sub(&sphere.centre);
    assert_eq!(pc.dot_raw(&pc), sphere.radius * sphere.radius);
}

#[test]
fn sphere_hit_round_trip_and_orientation() {
    let (sphere, ray) = unit_sphere_scene();
    let hit = sphere.hit(&ray, &Interval { min: 0, max: T_MAX }).unwrap();
    // |pos - centre|^2 equals radius^2 (raw dot products carry the squared
    // scale, so both sides are comparable directly).
    let pc = hit.pos.sub(&sphere.centre);
    assert_eq!(pc.dot_raw(&pc), sphere.radius * sphere.radius);
    // The oriented normal opposes the incoming direction.
    assert!(ray.direction.dot_raw(&hit.normal) <= 0);
}

#[test]
fn triangle_front_winding_hits_at_two() {
    let tri = Tri { a: v(-S, S, -2 * S), b: v(S, S, -2 * S), c: v(0, -S, -2 * S) };
    let ray = Ray { origin: v(0, 0, 0), direction: v(0, 0, -S) };
    let hit = tri.hit(&ray, &Interval { min: 0, max: T_MAX }).unwrap();
    assert_eq!(hit.t, 2 * S);
    assert_eq!(hit.pos, v(0, 0, -2 * S));
    // The oriented normal opposes the ray.
    assert!(ray.direction.dot_raw(&hit.normal) < 0);
}

#[test]
fn triangle_reversed_winding_is_culled() {
    // The same geometry with the vertex order reversed: the identical ray
    // now approaches the back face and must miss.
    let tri = Tri { a: v(0, -S, -2 * S), b: v(S, S, -2 * S), c: v(-S, S, -2 * S) };
    let ray = Ray { origin: v(0, 0, 0), direction: v(0, 0, -S) };
    assert!(tri.hit(&ray, &Interval { min: 0, max: T_MAX }).is_none());
}

#[test]
fn triangle_sliver_orientation_is_decided_before_rounding() {
    // A sliver triangle whose scaled-down normal truncates to a single
    // non-zero component with the "wrong" sign for the dot product. The
    // orientation is decided on the exact cross product (the sign already
    // fixed by det < 0), so the accepted hit is back-faced and stores the
    // negated scaled normal, whatever rounding did to the tiny components.
    let tri = Tri { a: v(0, 0, 0), b: v(1, 0, 65536), c: v(0, 1, 65535) };
    let ray = Ray { origin: v(0, 1, 32768), direction: v(1, -2, 1) };
    let hit = tri.hit(&ray, &Interval { min: 0, max: T_MAX }).unwrap();
    assert_eq!(hit.t, 32767);
    assert!(!hit.frontface);
    assert_eq!(hit.normal, v(1, 0, 0));
}

#[test]
fn setfacenormal_flips_a_candidate_that_points_with_the_ray() {
    let ray = Ray { origin: v(0, 0, 0), direction: v(0, 0, -S) };
    let mut hit = raytrace::hit::Hit {
        pos: v(0, 0, -S),
        normal: v(0, 0, 0),
        t: S,
        frontface: true,
    };
    // Candidate pointing against the ray: kept, front-faced.
    hit.setfacenormal(&ray, v(0, 0, S));
    assert!(hit.frontface);
    assert_eq!(hit.normal, v(0, 0, S));
    // Candidate pointing with the ray: flipped, back-faced.
    hit.setfacenormal(&ray, v(0, 0, -S));
    assert!(!hit.frontface);
    assert_eq!(hit.normal, v(0, 0, S));
}

#[test]
fn triangle_parallel_ray_misses() {
    let tri = Tri { a: v(-S, S, -2 * S), b: v(S, S, -2 * S), c: v(0, -S, -2 * S) };
    let ray = Ray { origin: v(0, 0, 0), direction: v(S, 0, 0) };
    assert!(tri.hit(&ray, &Interval { min: 0, max: T_MAX }).is_none());
}

#[test]
fn empty_list_returns_absence() {
    let world = HittableList { hittables: Vec::new() };
    let ray = Ray { origin: v(0, 0, 0), direction: v(0, 0, -S) };
    assert!(world.hit(&ray, &Interval { min: 0, max: T_MAX }).is_none());
}

#[test]
fn two_spheres_nearest_wins_in_either_order() {
    let near = Primitive::Sphere(Sphere { centre: v(0, 0, -2 * S), radius: S / 2 });
    let far = Primitive::Sphere(Sphere { centre: v(0, 0, -4 * S), radius: S / 2 });
    let ray = Ray { origin: v(0, 0, 0), direction: v(0, 0, -S) };
    let itv = Interval { min: 0, max: T_MAX };

    let world_a = HittableList { hittables: vec![near, far] };
    let world_b = HittableList { hittables: vec![far, near] };
    let hit_a = world_a.hit(&ray, &itv).unwrap();
    let hit_b = world_b.hit(&ray, &itv).unwrap();
    assert_eq!(hit_a.t, 3 * S / 2);
    assert_eq!(hit_a, hit_b);
}

#[test]
fn exact_tie_breaks_last_wins() {
    // A sphere and a triangle both struck at exactly t = 0.5: the later
    // primitive in list order replaces the earlier one. The sphere's hit is
    // front-faced, the triangle's is not, which tells them apart.
    let sphere = Primitive::Sphere(Sphere { centre: v(0, 0, -S), radius: S / 2 });
    let tri = Primitive::Tri(Tri {
        a: v(-S, S, -S / 2),
        b: v(S, S, -S / 2),
        c: v(0, -S, -S / 2),
    });
    let ray = Ray { origin: v(0, 0, 0), direction: v(0, 0, -S) };
    let itv = Interval { min: 0, max: T_MAX };

    let sphere_then_tri = HittableList { hittables: vec![sphere, tri] };
    let hit = sphere_then_tri.hit(&ray, &itv).unwrap();
    assert_eq!(hit.t, S / 2);
    assert!(!hit.frontface);

    let tri_then_sphere = HittableList { hittables: vec![tri, sphere] };
    let hit = tri_then_sphere.hit(&ray, &itv).unwrap();
    assert_eq!(hit.t, S / 2);
    assert!(hit.frontface);
}

#[test]
fn coltrace_hit_visualises_the_normal() {
    let world = HittableList {
        hittables: vec![Primitive::Sphere(Sphere { centre: v(0, 0, -S), radius: S / 2 })],
    };
    let ray = Ray { origin: v(0, 0, 0), direction: v(0, 0, -S) };
    // Normal (0, 0, 1): channels truncate 0, 0 and 255.999.
    assert_eq!(ray.coltrace(&world), Color { r: 0, g: 0, b: 255 });
}

#[test]
fn coltrace_miss_blends_the_sky() {
    let world = HittableList {
        hittables: vec![Primitive::Sphere(Sphere { centre: v(0, 0, -S), radius: S / 2 })],
    };
    // Level flight (y = 0): the blend factor is exactly one half.
    let level = Ray { origin: v(0, 0, 0), direction: v(0, 0, S) };
    assert_eq!(level.coltrace(&world), Color { r: 162, g: 177, b: 255 });
    // Straight up: the horizon endpoint, exactly.
    let up = Ray { origin: v(0, 0, 0), direction: v(0, S, 0) };
    assert_eq!(up.coltrace(&world), Color { r: 70, g: 100, b: 255 });
    // Straight down: the zenith endpoint (white), exactly.
    let down = Ray { origin: v(0, 0, 0), direction: v(0, -S, 0) };
    assert_eq!(down.coltrace(&world), Color { r: 255, g: 255, b: 255 });
}

#[test]
fn coltrace_miss_stays_between_the_endpoints() {
    let world = HittableList { hittables: Vec::new() };
    // A skewed direction: whatever the blend, every channel must lie
    // between the horizon colour (70, 100, 255) and white.
    let ray = Ray { origin: v(0, 0, 0), direction: v(3 * S / 7, -2 * S / 5, S / 3) };
    let c = ray.coltrace(&world);
    assert!(70 <= c.r && c.r <= 255);
    assert!(100 <= c.g && c.g <= 255);
    assert_eq!(c.b, 255);
}

#[test]
fn colorize_truncates_and_clamps() {
    assert_eq!(colorize(&v(0, 0, S)), Color { r: 0, g: 0, b: 255 });
    assert_eq!(colorize(&v(-S, S / 2, 0)), Color { r: 0, g: 127, b: 0 });
    // Out-of-range components clamp instead of wrapping.
    assert_eq!(colorize(&v(4 * S, -4 * S, S / 4)), Color { r: 255, g: 0, b: 63 });
}

#[test]
fn rayto_walks_the_ray() {
    let ray = Ray { origin: v(S, 2 * S, 3 * S), direction: v(0, 0, -S) };
    assert_eq!(ray.rayto(2 * S), v(S, 2 * S, S));
    assert_eq!(ray.rayto(0), v(S, 2 * S, 3 * S));
}
