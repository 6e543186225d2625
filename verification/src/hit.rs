//! Hit records, the front-face orientation policy, and the `Hittable`
//! capability shared by primitives and by the scene collection.

use vstd::prelude::*;
use crate::interval::Interval;
use crate::num::{lemma_tdiv_rem, tdiv};
use crate::ray::{ray_wf, Ray, RayView};
use crate::vec3::{bounded, lemma_sdot_neg, sdot, vneg, Vec3, Vec3i};

verus! {

/// Bound on the components of any normal a primitive reports: a sphere's
/// normal is a bounded position difference divided by a radius of at least
/// one, and a triangle's is a rescaled cross product of bounded edges.
pub const NORMAL_BOUND: i128 = 0x8000_0000_4000_0000_0000;

/// Where, when and how a ray struck a surface. `normal` is oriented to
/// oppose the incoming ray; `frontface` records whether the ray approached
/// from the side the geometric normal points toward.
#[derive(Clone, Copy, PartialEq, Eq, Structural, Debug)]
pub struct Hit {
    pub pos: Vec3,
    pub normal: Vec3,
    pub t: i128,
    pub frontface: bool,
}

/// The mathematical view of a hit record.
pub struct HitView {
    pub pos: Vec3i,
    pub normal: Vec3i,
    pub t: int,
    pub frontface: bool,
}

impl View for Hit {
    type V = HitView;

    open spec fn view(&self) -> HitView {
        HitView { pos: self.pos@, normal: self.normal@, t: self.t as int, frontface: self.frontface }
    }
}

/// The view of an optional hit.
pub open spec fn opt_hit_view(r: Option<Hit>) -> Option<HitView> {
    match r {
        Some(h) => Some(h@),
        None => None,
    }
}

/// The ray approaches from the side the candidate normal points toward.
pub open spec fn is_front(dir: Vec3i, outn: Vec3i) -> bool {
    sdot(dir, outn) < 0
}

/// The candidate normal, flipped if needed so that it opposes the ray.
pub open spec fn oriented_normal(dir: Vec3i, outn: Vec3i) -> Vec3i {
    if is_front(dir, outn) {
        outn
    } else {
        vneg(outn)
    }
}

/// The oriented normal never points with the ray: its raw dot product with
/// the direction is at most zero, whatever the candidate normal was.
pub proof fn lemma_oriented_normal_opposes(dir: Vec3i, outn: Vec3i)
    ensures
        sdot(dir, oriented_normal(dir, outn)) <= 0,
{
    if !is_front(dir, outn) {
        lemma_sdot_neg(dir, outn);
    }
}

/// Each component divided by a common positive `k`, rounding toward zero:
/// the shape of the rounding a solver applies to its exact oriented normal
/// before storing it.
pub open spec fn rounded_by(u: Vec3i, k: int) -> Vec3i {
    Vec3i { x: tdiv(u.x, k), y: tdiv(u.y, k), z: tdiv(u.z, k) }
}

/// The stored normal arose from an exact vector that opposes the ray: some
/// `u` with `sdot(dir, u) <= 0`, truncated component-wise by a common
/// positive divisor. The orientation decision itself is made on the exact
/// vector; only the stored components are rounded.
pub open spec fn opposes_before_rounding(dir: Vec3i, n: Vec3i) -> bool {
    exists|u: Vec3i, k: int| 1 <= k && sdot(dir, u) <= 0 && n == #[trigger] rounded_by(u, k)
}

/// Rounding cannot turn a stored normal far toward the ray: its raw dot
/// product with the direction stays at most `3 * c` for a direction whose
/// components are bounded by `c` — less than one fixed-point unit per
/// component, where the exact dot product is at most zero.
pub proof fn lemma_opposes_rounding_bound(dir: Vec3i, n: Vec3i, c: int)
    requires
        opposes_before_rounding(dir, n),
        bounded(dir, c),
        0 <= c,
    ensures
        sdot(dir, n) <= 3 * c,
{
    let (u, k) = choose|u: Vec3i, k: int|
        1 <= k && sdot(dir, u) <= 0 && n == #[trigger] rounded_by(u, k);
    lemma_tdiv_rem(u.x, k);
    lemma_tdiv_rem(u.y, k);
    lemma_tdiv_rem(u.z, k);
    let rx = u.x - k * tdiv(u.x, k);
    let ry = u.y - k * tdiv(u.y, k);
    let rz = u.z - k * tdiv(u.z, k);
    assert(k * (dir.x * n.x) == dir.x * u.x - dir.x * rx) by (nonlinear_arith)
        requires
            k * n.x == u.x - rx,
    ;
    assert(k * (dir.y * n.y) == dir.y * u.y - dir.y * ry) by (nonlinear_arith)
        requires
            k * n.y == u.y - ry,
    ;
    assert(k * (dir.z * n.z) == dir.z * u.z - dir.z * rz) by (nonlinear_arith)
        requires
            k * n.z == u.z - rz,
    ;
    assert(k * sdot(dir, n) == k * (dir.x * n.x) + k * (dir.y * n.y) + k * (dir.z
        * n.z)) by (nonlinear_arith)
        requires
            sdot(dir, n) == dir.x * n.x + dir.y * n.y + dir.z * n.z,
    ;
    crate::num::lemma_mul_bound(dir.x, rx, c, k - 1);
    crate::num::lemma_mul_bound(dir.y, ry, c, k - 1);
    crate::num::lemma_mul_bound(dir.z, rz, c, k - 1);
    assert(k * sdot(dir, n) <= 3 * (c * (k - 1)));
    assert(sdot(dir, n) <= 3 * c) by (nonlinear_arith)
        requires
            1 <= k,
            0 <= c,
            k * sdot(dir, n) <= 3 * (c * (k - 1)),
    ;
}

impl Hit {
    /// Record the front-face flag and store the candidate normal, flipped
    /// if needed so that the stored normal opposes the incoming ray. This
    /// is the orientation policy on an already-stored-scale candidate; the
    /// solvers build their records as pure constructors instead, deciding
    /// the same test on the exact candidate before its components are
    /// rounded, so that the flag always agrees with the exact geometry.
    pub fn setfacenormal(&mut self, ray: &Ray, outnorm: Vec3)
        requires
            crate::vec3::sdot_fits(ray@.direction, outnorm@),
            outnorm@.x > i128::MIN,
            outnorm@.y > i128::MIN,
            outnorm@.z > i128::MIN,
        ensures
            final(self).pos == old(self).pos,
            final(self).t == old(self).t,
            final(self).frontface == is_front(ray@.direction, outnorm@),
            final(self)@.normal == oriented_normal(ray@.direction, outnorm@),
            sdot(ray@.direction, final(self)@.normal) <= 0,
    {
        proof {
            lemma_oriented_normal_opposes(ray@.direction, outnorm@);
        }
        self.frontface = ray.direction.dot_raw(&outnorm) < 0;
        self.normal = if self.frontface {
            outnorm
        } else {
            outnorm.neg()
        };
    }
}

/// The capability of anything a ray can be tested against: given a ray and
/// a closed search interval for the parameter `t`, report the nearest valid
/// intersection, or absence. `spec_hit` is the mathematical answer each
/// implementer gives; `hit` computes exactly that answer.
pub trait Hittable: Sized {
    /// The implementer is acceptable geometry.
    spec fn wf(&self) -> bool;

    /// The mathematical result of the intersection query on the closed
    /// range `[tmin, tmax]`.
    spec fn spec_hit(&self, ray: RayView, tmin: int, tmax: int) -> Option<HitView>;

    /// Answer the intersection query. Implementations read the ray, the
    /// interval and themselves; they mutate nothing.
    fn hit(&self, ray: &Ray, raytminmax: &Interval) -> (r: Option<Hit>)
        requires
            self.wf(),
            ray_wf(ray@),
            raytminmax.t_bounded(),
        ensures
            opt_hit_view(r) == self.spec_hit(ray@, raytminmax.min as int, raytminmax.max as int),
    ;
}

} // verus!
