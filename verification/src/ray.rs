//! Rays: an origin and a direction, with points `origin + t * direction`.

use vstd::prelude::*;
use crate::color::{colorize, sky, spec_colorize, spec_sky, Color, ColorView};
use crate::hit::Hittable;
use crate::interval::{Interval, T_MAX};
use crate::list::{lemma_resolve_props, resolve_from, HittableList, Primitive};
use crate::num::{lemma_mul_bound, lemma_tdiv_bound, SCALE};
use crate::vec3::{bounded, in_coord_range, sdot, vadd, vmul_fx, Vec3, Vec3i};

verus! {

/// A ray. The direction need not be unit length; callers choose whether to
/// normalise it, which sets the scale of the parameter `t`.
#[derive(Clone, Copy, PartialEq, Eq, Structural, Debug)]
pub struct Ray {
    pub origin: Vec3,
    pub direction: Vec3,
}

/// The mathematical view of a ray.
pub struct RayView {
    pub origin: Vec3i,
    pub direction: Vec3i,
}

impl View for Ray {
    type V = RayView;

    open spec fn view(&self) -> RayView {
        RayView { origin: self.origin@, direction: self.direction@ }
    }
}

/// Acceptable ray geometry: origin and direction within the coordinate
/// range, and a direction that is not the zero vector (a zero direction
/// would make the intersection solvers divide by zero, which is left to
/// the caller to rule out).
pub open spec fn ray_wf(r: RayView) -> bool {
    &&& in_coord_range(r.origin)
    &&& in_coord_range(r.direction)
    &&& sdot(r.direction, r.direction) >= 1
}

/// The point `origin + t * direction`, in fixed point.
pub open spec fn ray_at(r: RayView, t: int) -> Vec3i {
    vadd(r.origin, vmul_fx(r.direction, t))
}

/// The scaled direction term of `ray_at` stays well inside `i128`: each of
/// its components is bounded by 2^63.
pub proof fn lemma_ray_at_bounds(r: RayView, t: int)
    requires
        ray_wf(r),
        -T_MAX <= t <= T_MAX,
    ensures
        bounded(vmul_fx(r.direction, t), 0x8000_0000_0000_0000),
        bounded(ray_at(r, t), 0x8000_0000_2000_0000),
{
    lemma_mul_bound(t, r.direction.x, T_MAX as int, crate::vec3::COORD_MAX as int);
    lemma_mul_bound(t, r.direction.y, T_MAX as int, crate::vec3::COORD_MAX as int);
    lemma_mul_bound(t, r.direction.z, T_MAX as int, crate::vec3::COORD_MAX as int);
    lemma_tdiv_bound(t * r.direction.x, SCALE as int, 0x8000_0000_0000_0000);
    lemma_tdiv_bound(t * r.direction.y, SCALE as int, 0x8000_0000_0000_0000);
    lemma_tdiv_bound(t * r.direction.z, SCALE as int, 0x8000_0000_0000_0000);
}

/// The colour a ray resolves to against a scene: the scene is queried over
/// `[0, T_MAX]` (the fixed-point stand-in for an unbounded forward search);
/// a hit is shaded by visualising its oriented normal, a miss by the
/// vertical sky gradient of the ray's direction.
pub open spec fn spec_coltrace(ray: RayView, objs: Seq<Primitive>) -> ColorView {
    match resolve_from(objs, ray, 0, T_MAX as int, None) {
        Some(h) => spec_colorize(h.normal),
        None => spec_sky(ray.direction),
    }
}

/// For any ray that misses every primitive in the scene, the resulting
/// colour's three channels lie between the two gradient endpoint colours
/// component-wise: the sky blend never overshoots either endpoint.
pub proof fn lemma_miss_color_bounded(ray: RayView, objs: Seq<Primitive>)
    requires
        ray_wf(ray),
        resolve_from(objs, ray, 0, T_MAX as int, None) is None,
    ensures
        crate::color::SKY_HORIZON_R <= spec_coltrace(ray, objs).r <= crate::color::SKY_ZENITH,
        crate::color::SKY_HORIZON_G <= spec_coltrace(ray, objs).g <= crate::color::SKY_ZENITH,
        crate::color::SKY_HORIZON_B <= spec_coltrace(ray, objs).b <= crate::color::SKY_ZENITH,
{
    crate::color::lemma_sky_color_bounded(ray.direction);
}

impl Ray {
    /// The point on the ray at parameter `t`.
    pub fn rayto(&self, t: i128) -> (r: Vec3)
        requires
            ray_wf(self@),
            -T_MAX <= t <= T_MAX,
        ensures
            r@ == ray_at(self@, t as int),
    {
        proof {
            lemma_ray_at_bounds(self@, t as int);
        }
        let scaled = self.direction.mul_fx(t);
        self.origin.add(&scaled)
    }

    /// Resolve this ray against the scene and shade the outcome.
    pub fn coltrace(&self, hittables: &HittableList) -> (r: Color)
        requires
            ray_wf(self@),
            hittables.wf(),
        ensures
            r@ == spec_coltrace(self@, hittables.hittables@),
    {
        proof {
            lemma_resolve_props(hittables.hittables@, self@, 0, T_MAX as int, None);
        }
        match hittables.hit(self, &Interval { min: 0, max: T_MAX }) {
            Some(hitrec) => colorize(&hitrec.normal),
            None => sky(&self.direction),
        }
    }
}

} // verus!
