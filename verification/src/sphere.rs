//! Ray/sphere intersection by the closed-form quadratic solve.

use vstd::prelude::*;
use crate::hit::{is_front, opt_hit_view, oriented_normal, Hit, HitView, Hittable};
use crate::interval::{Interval, T_MAX};
use crate::num::{
    lemma_mul_bound, lemma_tdiv_shrinks, sqrt_floor, tdiv, SCALE,
};
use crate::ray::{ray_at, ray_wf, Ray, RayView};
use crate::vec3::{
    bounded, in_coord_range, lemma_sdot_fits, sdot, vdiv_fx, vsub, Vec3, Vec3i, COORD_MAX,
};

verus! {

/// A sphere. The radius is assumed positive (at least one raw unit): a
/// zero radius would divide by zero in the normal computation, and the
/// type does not defend against it.
#[derive(Clone, Copy, PartialEq, Eq, Structural, Debug)]
pub struct Sphere {
    pub centre: Vec3,
    pub radius: i128,
}

/// The mathematical view of a sphere.
pub struct SphereView {
    pub centre: Vec3i,
    pub radius: int,
}

impl View for Sphere {
    type V = SphereView;

    open spec fn view(&self) -> SphereView {
        SphereView { centre: self.centre@, radius: self.radius as int }
    }
}

/// Acceptable sphere geometry.
pub open spec fn sphere_wf(s: SphereView) -> bool {
    &&& in_coord_range(s.centre)
    &&& 1 <= s.radius <= COORD_MAX
}

/// `centre - origin`: the vector from the ray's origin to the centre.
pub open spec fn sphere_oc(s: SphereView, ray: RayView) -> Vec3i {
    vsub(s.centre, ray.origin)
}

/// The quadratic's leading coefficient: the squared length of the
/// direction, raw.
pub open spec fn sphere_qa(ray: RayView) -> int {
    sdot(ray.direction, ray.direction)
}

/// Half the negated middle coefficient: `direction . oc`, raw.
pub open spec fn sphere_qh(s: SphereView, ray: RayView) -> int {
    sdot(ray.direction, sphere_oc(s, ray))
}

/// The constant coefficient: `|oc|^2 - radius^2`, raw.
pub open spec fn sphere_qc(s: SphereView, ray: RayView) -> int {
    sdot(sphere_oc(s, ray), sphere_oc(s, ray)) - s.radius * s.radius
}

/// The quadratic's discriminant: negative exactly when the ray's line
/// misses the sphere.
pub open spec fn sphere_disc(s: SphereView, ray: RayView) -> int {
    sphere_qh(s, ray) * sphere_qh(s, ray) - sphere_qa(ray) * sphere_qc(s, ray)
}

/// The candidate root `(h - sqrt(disc)) / a` (the nearer one, preferred),
/// in fixed point.
pub open spec fn sphere_root1(s: SphereView, ray: RayView) -> int
    recommends
        sphere_disc(s, ray) >= 0,
{
    tdiv(
        (sphere_qh(s, ray) - sqrt_floor(sphere_disc(s, ray) as nat)) * SCALE,
        sphere_qa(ray),
    )
}

/// The candidate root `(h + sqrt(disc)) / a` (the farther one), in fixed
/// point.
pub open spec fn sphere_root2(s: SphereView, ray: RayView) -> int
    recommends
        sphere_disc(s, ray) >= 0,
{
    tdiv(
        (sphere_qh(s, ray) + sqrt_floor(sphere_disc(s, ray) as nat)) * SCALE,
        sphere_qa(ray),
    )
}

/// The hit record for an accepted root `t`: position on the ray, and the
/// geometric normal `(pos - centre) / radius` (unit length up to
/// rounding), oriented to oppose the ray. The orientation is decided on
/// the exact offset `pos - centre` — dividing by the positive radius
/// cannot change the true sign, but its truncation could, so the flag and
/// the flip are fixed before the rounding division.
pub open spec fn sphere_record(s: SphereView, ray: RayView, t: int) -> HitView {
    let pos = ray_at(ray, t);
    let pc = vsub(pos, s.centre);
    HitView {
        pos,
        normal: vdiv_fx(oriented_normal(ray.direction, pc), s.radius),
        t,
        frontface: is_front(ray.direction, pc),
    }
}

/// The whole intersection test: absence when the discriminant is negative
/// or neither root lies in the closed search range; otherwise the record
/// for the nearer acceptable root.
pub open spec fn sphere_hit(s: SphereView, ray: RayView, tmin: int, tmax: int) -> Option<
    HitView,
> {
    if sphere_disc(s, ray) < 0 {
        None
    } else if tmin <= sphere_root1(s, ray) <= tmax {
        Some(sphere_record(s, ray, sphere_root1(s, ray)))
    } else if tmin <= sphere_root2(s, ray) <= tmax {
        Some(sphere_record(s, ray, sphere_root2(s, ray)))
    } else {
        None
    }
}

/// Magnitude bounds on the quadratic's coefficients for acceptable
/// geometry; they keep every intermediate of the solver inside `i128`.
pub proof fn lemma_sphere_coeff_bounds(s: SphereView, ray: RayView)
    requires
        sphere_wf(s),
        ray_wf(ray),
    ensures
        crate::vec3::sdot_fits(ray.direction, ray.direction),
        crate::vec3::sdot_fits(ray.direction, sphere_oc(s, ray)),
        crate::vec3::sdot_fits(sphere_oc(s, ray), sphere_oc(s, ray)),
        1 <= sphere_qa(ray) <= 0xC00_0000_0000_0000,
        -0x1800_0000_0000_0000 <= sphere_qh(s, ray) <= 0x1800_0000_0000_0000,
        -0x3400_0000_0000_0000 <= sphere_qc(s, ray) <= 0x3400_0000_0000_0000,
        0 <= s.radius * s.radius <= 0x400_0000_0000_0000,
        -0x3000_0000_0000_0000 <= sdot(sphere_oc(s, ray), sphere_oc(s, ray))
            <= 0x3000_0000_0000_0000,
        -0x240_0000_0000_0000_0000_0000_0000_0000 <= sphere_qh(s, ray) * sphere_qh(s, ray)
            <= 0x240_0000_0000_0000_0000_0000_0000_0000,
        -0x270_0000_0000_0000_0000_0000_0000_0000 <= sphere_qa(ray) * sphere_qc(s, ray)
            <= 0x270_0000_0000_0000_0000_0000_0000_0000,
        -0x4B0_0000_0000_0000_0000_0000_0000_0000 <= sphere_disc(s, ray)
            <= 0x4B0_0000_0000_0000_0000_0000_0000_0000,
{
    let oc = sphere_oc(s, ray);
    lemma_sdot_fits(ray.direction, ray.direction, 0x2000_0000, 0x2000_0000);
    lemma_sdot_fits(ray.direction, oc, 0x2000_0000, 0x4000_0000);
    lemma_sdot_fits(oc, oc, 0x4000_0000, 0x4000_0000);
    lemma_mul_bound(s.radius, s.radius, 0x2000_0000, 0x2000_0000);
    lemma_mul_bound(
        sphere_qh(s, ray),
        sphere_qh(s, ray),
        0x1800_0000_0000_0000,
        0x1800_0000_0000_0000,
    );
    lemma_mul_bound(sphere_qa(ray), sphere_qc(s, ray), 0xC00_0000_0000_0000, 0x3400_0000_0000_0000);
}

/// The floor square root of the discriminant fits comfortably in `i128`.
pub proof fn lemma_sphere_sqrtd_bound(s: SphereView, ray: RayView)
    requires
        sphere_wf(s),
        ray_wf(ray),
        sphere_disc(s, ray) >= 0,
    ensures
        0 <= sqrt_floor(sphere_disc(s, ray) as nat) <= 0x4000_0000_0000_0000,
{
    lemma_sphere_coeff_bounds(s, ray);
    let d = sphere_disc(s, ray) as nat;
    crate::num::lemma_sqrt_floor_bounds(d);
    assert(sqrt_floor(d) <= 0x4000_0000_0000_0000) by (nonlinear_arith)
        requires
            sqrt_floor(d) * sqrt_floor(d) <= d,
            d <= 0x4B0_0000_0000_0000_0000_0000_0000_0000,
    ;
}

/// Shrinking the upper end of the search range filters the sphere's answer
/// by the reported parameter: on `[tmin, c]` with `c <= tmax`, the sphere
/// reports the same hit if its parameter is at most `c`, and absence
/// otherwise. This holds because the preferred root never exceeds the
/// other root.
pub proof fn lemma_sphere_hit_narrow(s: SphereView, ray: RayView, tmin: int, tmax: int, c: int)
    requires
        sphere_wf(s),
        ray_wf(ray),
        c <= tmax,
    ensures
        sphere_hit(s, ray, tmin, c) == match sphere_hit(s, ray, tmin, tmax) {
            Some(h) => if h.t <= c {
                Some(h)
            } else {
                None::<HitView>
            },
            None => None::<HitView>,
        },
{
    if sphere_disc(s, ray) >= 0 {
        let sq = sqrt_floor(sphere_disc(s, ray) as nat);
        crate::num::lemma_tdiv_ordered(
            (sphere_qh(s, ray) - sq) * SCALE,
            (sphere_qh(s, ray) + sq) * SCALE,
            sphere_qa(ray),
        );
    }
}

/// Any sphere hit record for a parameter in the working range carries a
/// bounded normal whose exact, pre-rounding form opposes the ray.
pub proof fn lemma_sphere_record_props(s: SphereView, ray: RayView, t: int)
    requires
        sphere_wf(s),
        ray_wf(ray),
        -T_MAX <= t <= T_MAX,
    ensures
        bounded(sphere_record(s, ray, t).normal, crate::hit::NORMAL_BOUND as int),
        crate::hit::opposes_before_rounding(ray.direction, sphere_record(s, ray, t).normal),
        sphere_record(s, ray, t).t == t,
{
    crate::ray::lemma_ray_at_bounds(ray, t);
    let pos = ray_at(ray, t);
    let pc = vsub(pos, s.centre);
    let or = oriented_normal(ray.direction, pc);
    lemma_tdiv_shrinks(or.x * SCALE, s.radius);
    lemma_tdiv_shrinks(or.y * SCALE, s.radius);
    lemma_tdiv_shrinks(or.z * SCALE, s.radius);
    crate::hit::lemma_oriented_normal_opposes(ray.direction, pc);
    let u = Vec3i { x: or.x * SCALE, y: or.y * SCALE, z: or.z * SCALE };
    assert(sdot(ray.direction, u) <= 0) by (nonlinear_arith)
        requires
            sdot(ray.direction, or) <= 0,
            u.x == or.x * 65536 && u.y == or.y * 65536 && u.z == or.z * 65536,
            sdot(ray.direction, or) == ray.direction.x * or.x + ray.direction.y * or.y
                + ray.direction.z * or.z,
            sdot(ray.direction, u) == ray.direction.x * u.x + ray.direction.y * u.y
                + ray.direction.z * u.z,
    ;
    assert(sphere_record(s, ray, t).normal == crate::hit::rounded_by(u, s.radius));
}

/// The squared distance from the exact intersection point to the centre,
/// scaled by the leading coefficient squared: with the exact root
/// `t* = k / a`, the point is `origin + t*·direction`, and
/// `a² |t*·direction - oc|²` expands to `Σ (k·D_i - a·oc_i)²`.
pub open spec fn sphere_sq_dist_scaled(s: SphereView, ray: RayView, k: int) -> int {
    let d = ray.direction;
    let oc = sphere_oc(s, ray);
    let a = sphere_qa(ray);
    (k * d.x - a * oc.x) * (k * d.x - a * oc.x) + (k * d.y - a * oc.y) * (k * d.y - a * oc.y) + (
    k * d.z - a * oc.z) * (k * d.z - a * oc.z)
}

/// Expansion of one squared component of the scaled distance.
proof fn lemma_expand_sq(k: int, dx: int, a: int, ox: int)
    ensures
        (k * dx - a * ox) * (k * dx - a * ox) == (k * k) * (dx * dx) - 2 * ((k * a) * (dx * ox)) + (
        a * a) * (ox * ox),
{
    let p = k * dx;
    let q = a * ox;
    assert((p - q) * (p - q) == p * p - 2 * (p * q) + q * q) by (nonlinear_arith);
    assert((k * dx) * (k * dx) == (k * k) * (dx * dx)) by (nonlinear_arith);
    assert((k * dx) * (a * ox) == (k * a) * (dx * ox)) by (nonlinear_arith);
    assert((a * ox) * (a * ox) == (a * a) * (ox * ox)) by (nonlinear_arith);
}

/// Round trip: when the discriminant is an exact square `sq²`, either
/// exact root `t* = (h ± sq) / a` puts the intersection point exactly on
/// the sphere: `a²·|pos - centre|² == a²·radius²`. A computed hit record
/// differs from this exact point only by the documented truncations of
/// the floor square root and the fixed-point divisions.
pub proof fn lemma_sphere_hit_on_sphere(s: SphereView, ray: RayView, sq: int, k: int)
    requires
        sq * sq == sphere_disc(s, ray),
        k == sphere_qh(s, ray) - sq || k == sphere_qh(s, ray) + sq,
    ensures
        sphere_sq_dist_scaled(s, ray, k) == (sphere_qa(ray) * sphere_qa(ray)) * (s.radius
            * s.radius),
{
    let d = ray.direction;
    let oc = sphere_oc(s, ray);
    let a = sphere_qa(ray);
    let h = sphere_qh(s, ray);
    let c = sphere_qc(s, ray);
    let r2 = s.radius * s.radius;
    lemma_expand_sq(k, d.x, a, oc.x);
    lemma_expand_sq(k, d.y, a, oc.y);
    lemma_expand_sq(k, d.z, a, oc.z);
    assert((k * k) * (d.x * d.x) + (k * k) * (d.y * d.y) + (k * k) * (d.z * d.z) == (k * k)
        * a) by (nonlinear_arith)
        requires
            a == d.x * d.x + d.y * d.y + d.z * d.z,
    ;
    assert((k * a) * (d.x * oc.x) + (k * a) * (d.y * oc.y) + (k * a) * (d.z * oc.z) == (k * a)
        * h) by (nonlinear_arith)
        requires
            h == d.x * oc.x + d.y * oc.y + d.z * oc.z,
    ;
    assert((a * a) * (oc.x * oc.x) + (a * a) * (oc.y * oc.y) + (a * a) * (oc.z * oc.z) == (a * a) * (
    c + r2)) by (nonlinear_arith)
        requires
            c + r2 == oc.x * oc.x + oc.y * oc.y + oc.z * oc.z,
    ;
    assert(sphere_sq_dist_scaled(s, ray, k) == (k * k) * a - 2 * ((k * a) * h) + (a * a) * (c
        + r2));
    assert((k * k) * a - 2 * ((k * a) * h) == a * (sq * sq) - a * (h * h)) by (nonlinear_arith)
        requires
            k == h - sq || k == h + sq,
    ;
    assert(a * (sq * sq) - a * (h * h) + (a * a) * (c + r2) == (a * a) * r2) by (nonlinear_arith)
        requires
            sq * sq == h * h - a * c,
    ;
}

/// Round trip for the record itself: whenever the three roundings vanish —
/// the discriminant is an exact square, the root's division by `a` is
/// exact, and the position's rescaling is exact — the stored hit position
/// lies exactly on the sphere: `|pos - centre|² == radius²` (both sides at
/// the squared coordinate scale). On other inputs the position differs
/// from the exact intersection point only by those documented truncations,
/// each below one unit of its divisor.
pub proof fn lemma_sphere_record_on_sphere(s: SphereView, ray: RayView, sq: int, t: int)
    requires
        sphere_wf(s),
        ray_wf(ray),
        sq * sq == sphere_disc(s, ray),
        t * sphere_qa(ray) == (sphere_qh(s, ray) - sq) * SCALE || t * sphere_qa(ray) == (
        sphere_qh(s, ray) + sq) * SCALE,
        tdiv(t * ray.direction.x, SCALE as int) * SCALE == t * ray.direction.x,
        tdiv(t * ray.direction.y, SCALE as int) * SCALE == t * ray.direction.y,
        tdiv(t * ray.direction.z, SCALE as int) * SCALE == t * ray.direction.z,
    ensures
        ({
            let pc = vsub(sphere_record(s, ray, t).pos, s.centre);
            sdot(pc, pc) == s.radius * s.radius
        }),
{
    let d = ray.direction;
    let oc = sphere_oc(s, ray);
    let a = sphere_qa(ray);
    let h = sphere_qh(s, ray);
    let k = if t * a == (h - sq) * SCALE {
        h - sq
    } else {
        h + sq
    };
    lemma_sphere_hit_on_sphere(s, ray, sq, k);
    let pc = vsub(sphere_record(s, ray, t).pos, s.centre);
    let mx = tdiv(t * d.x, SCALE as int);
    let my = tdiv(t * d.y, SCALE as int);
    let mz = tdiv(t * d.z, SCALE as int);
    assert(pc.x == mx - oc.x && pc.y == my - oc.y && pc.z == mz - oc.z);
    assert(a * mx == k * d.x) by (nonlinear_arith)
        requires
            mx * 65536 == t * d.x,
            t * a == k * 65536,
    ;
    assert(a * my == k * d.y) by (nonlinear_arith)
        requires
            my * 65536 == t * d.y,
            t * a == k * 65536,
    ;
    assert(a * mz == k * d.z) by (nonlinear_arith)
        requires
            mz * 65536 == t * d.z,
            t * a == k * 65536,
    ;
    assert((a * pc.x) * (a * pc.x) == (a * a) * (pc.x * pc.x) && a * pc.x == a * mx - a
        * oc.x) by (nonlinear_arith)
        requires
            pc.x == mx - oc.x,
    ;
    assert((a * pc.y) * (a * pc.y) == (a * a) * (pc.y * pc.y) && a * pc.y == a * my - a
        * oc.y) by (nonlinear_arith)
        requires
            pc.y == my - oc.y,
    ;
    assert((a * pc.z) * (a * pc.z) == (a * a) * (pc.z * pc.z) && a * pc.z == a * mz - a
        * oc.z) by (nonlinear_arith)
        requires
            pc.z == mz - oc.z,
    ;
    assert((k * d.x - a * oc.x) * (k * d.x - a * oc.x) + (k * d.y - a * oc.y) * (k * d.y - a
        * oc.y) + (k * d.z - a * oc.z) * (k * d.z - a * oc.z) == (a * a) * (sdot(pc, pc)))
        by (nonlinear_arith)
        requires
            a * pc.x == k * d.x - a * oc.x,
            a * pc.y == k * d.y - a * oc.y,
            a * pc.z == k * d.z - a * oc.z,
            sdot(pc, pc) == pc.x * pc.x + pc.y * pc.y + pc.z * pc.z,
    ;
    assert(sdot(pc, pc) == s.radius * s.radius) by (nonlinear_arith)
        requires
            (a * a) * (sdot(pc, pc)) == (a * a) * (s.radius * s.radius),
            a >= 1,
    ;
}

impl Hittable for Sphere {
    open spec fn wf(&self) -> bool {
        sphere_wf(self@)
    }

    open spec fn spec_hit(&self, ray: RayView, tmin: int, tmax: int) -> Option<HitView> {
        sphere_hit(self@, ray, tmin, tmax)
    }

    fn hit(&self, ray: &Ray, raytminmax: &Interval) -> (r: Option<Hit>) {
        proof {
            lemma_sphere_coeff_bounds(self@, ray@);
        }
        let oc = self.centre.sub(&ray.origin);
        let a = ray.direction.dot_raw(&ray.direction);
        let h = ray.direction.dot_raw(&oc);
        let c = oc.dot_raw(&oc) - self.radius * self.radius;
        proof {
            assert(h == sphere_qh(self@, ray@));
            assert(a == sphere_qa(ray@));
            assert(c == sphere_qc(self@, ray@));
        }
        let discriminant = h * h - a * c;

        if discriminant < 0 {
            return None;
        }

        let sqrtd = crate::num::isqrt_i(discriminant);
        proof {
            lemma_sphere_sqrtd_bound(self@, ray@);
        }

        let mut root = crate::num::div_t((h - sqrtd) * SCALE, a);
        proof {
            assert(root == sphere_root1(self@, ray@));
        }
        if !raytminmax.contains(root) {
            root = crate::num::div_t((h + sqrtd) * SCALE, a);
            if !raytminmax.contains(root) {
                return None;
            }
        }

        let pos = ray.rayto(root);
        proof {
            crate::ray::lemma_ray_at_bounds(ray@, root as int);
        }
        let pc = pos.sub(&self.centre);
        proof {
            lemma_sdot_fits(ray@.direction, pc@, 0x2000_0000, 0x8000_0000_4000_0000);
        }
        // Decide the orientation on the exact offset: dividing by the
        // positive radius cannot change the true sign of the dot product,
        // but the truncating division could flip a tiny one.
        let frontface = ray.direction.dot_raw(&pc) < 0;
        let outn = if frontface {
            pc
        } else {
            pc.neg()
        };
        let normal = outn.div_fx(self.radius);
        let hitrec = Hit { t: root, pos, normal, frontface };
        proof {
            assert(hitrec@ == sphere_record(self@, ray@, root as int));
        }
        Some(hitrec)
    }
}

} // verus!
