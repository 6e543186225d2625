//! Ray/triangle intersection, Möller–Trumbore style, one-sided.
//!
//! The in/out decisions (`det < 0`, `u > 0`, `v > 0`, `t > 0`, `u + v < 1`)
//! and the front-face orientation are made on exact integer quantities,
//! before any fixed-point rounding: with `det < 0`, the sign of
//! `u = (e2 . dao) / det` is the opposite of the sign of its numerator,
//! and so on. Only the reported parameter `t`, the derived position and
//! the stored normal's components are rounded.

use vstd::prelude::*;
use crate::hit::{is_front, oriented_normal, Hit, HitView, Hittable};
use crate::interval::Interval;
use crate::num::{lemma_tdiv_shrinks, tdiv_s, SCALE};
use crate::ray::{ray_at, ray_wf, Ray, RayView};
use crate::vec3::{
    in_coord_range, lemma_scross_fits, lemma_sdot_fits, scross, sdot, vscale_down, vsub, Vec3,
    Vec3i,
};

verus! {

/// A triangle: three vertices defining a one-sided oriented surface. The
/// winding order determines the front face.
#[derive(Clone, Copy, PartialEq, Eq, Structural, Debug)]
pub struct Tri {
    pub a: Vec3,
    pub b: Vec3,
    pub c: Vec3,
}

/// The mathematical view of a triangle.
pub struct TriView {
    pub a: Vec3i,
    pub b: Vec3i,
    pub c: Vec3i,
}

impl View for Tri {
    type V = TriView;

    open spec fn view(&self) -> TriView {
        TriView { a: self.a@, b: self.b@, c: self.c@ }
    }
}

/// Acceptable triangle geometry.
pub open spec fn tri_wf(t: TriView) -> bool {
    &&& in_coord_range(t.a)
    &&& in_coord_range(t.b)
    &&& in_coord_range(t.c)
}

/// First edge, `b - a`.
pub open spec fn tri_e1(t: TriView) -> Vec3i {
    vsub(t.b, t.a)
}

/// Second edge, `c - a`.
pub open spec fn tri_e2(t: TriView) -> Vec3i {
    vsub(t.c, t.a)
}

/// The raw geometric normal `e1 x e2`. It is not normalised: its magnitude
/// is twice the triangle's area (at the square of the coordinate scale).
pub open spec fn tri_normal_raw(t: TriView) -> Vec3i {
    scross(tri_e1(t), tri_e2(t))
}

/// The solve's determinant, `-(direction . normal)`, raw. Zero exactly
/// when the ray is parallel to the triangle's plane; a hit requires it to
/// be negative (back faces are culled).
pub open spec fn tri_det(t: TriView, ray: RayView) -> int {
    -sdot(ray.direction, tri_normal_raw(t))
}

/// `origin - a`, raw.
pub open spec fn tri_ao(t: TriView, ray: RayView) -> Vec3i {
    vsub(ray.origin, t.a)
}

/// `(origin - a) x direction`, raw.
pub open spec fn tri_dao(t: TriView, ray: RayView) -> Vec3i {
    scross(tri_ao(t, ray), ray.direction)
}

/// Numerator of the barycentric-like parameter `u = (e2 . dao) / det`.
pub open spec fn tri_unum(t: TriView, ray: RayView) -> int {
    sdot(tri_e2(t), tri_dao(t, ray))
}

/// Numerator of the (negated) barycentric-like parameter
/// `v = -(e1 . dao) / det`.
pub open spec fn tri_vnum(t: TriView, ray: RayView) -> int {
    sdot(tri_e1(t), tri_dao(t, ray))
}

/// Numerator of the ray parameter `t = (normal . ao) / det`.
pub open spec fn tri_tnum(t: TriView, ray: RayView) -> int {
    sdot(tri_normal_raw(t), tri_ao(t, ray))
}

/// The reported ray parameter, in fixed point.
pub open spec fn tri_tpar(t: TriView, ray: RayView) -> int
    recommends
        tri_det(t, ray) != 0,
{
    tdiv_s(tri_tnum(t, ray) * SCALE, tri_det(t, ray))
}

/// With a negative determinant, the exact conditions `u > 0`, `v > 0`,
/// `t > 0` and `u + v < 1` read off the numerators' signs: dividing by
/// `det < 0` flips each inequality.
pub open spec fn tri_accepts(t: TriView, ray: RayView) -> bool {
    &&& tri_det(t, ray) < 0
    &&& tri_unum(t, ray) < 0
    &&& tri_vnum(t, ray) > 0
    &&& tri_tnum(t, ray) < 0
    &&& tri_unum(t, ray) - tri_vnum(t, ray) > tri_det(t, ray)
}

/// The hit record for an accepted parameter `tt`: position on the ray and
/// the unnormalised geometric normal brought back to vector scale,
/// oriented to oppose the ray. The orientation is decided on the exact
/// cross product — the same dot product whose sign fixes `det` — before
/// the stored components are rounded, so the flag and the stored sign
/// always agree with acceptance: an accepted one-sided hit is back-faced.
pub open spec fn tri_record(t: TriView, ray: RayView, tt: int) -> HitView {
    let pos = ray_at(ray, tt);
    let nraw = tri_normal_raw(t);
    HitView {
        pos,
        normal: vscale_down(oriented_normal(ray.direction, nraw)),
        t: tt,
        frontface: is_front(ray.direction, nraw),
    }
}

/// The whole intersection test: absence when the ray is parallel to the
/// plane, the reported parameter falls outside the closed search range, or
/// any of the strict one-sided conditions fails; otherwise the record.
pub open spec fn tri_hit(t: TriView, ray: RayView, tmin: int, tmax: int) -> Option<HitView> {
    if tri_det(t, ray) == 0 {
        None
    } else if !(tmin <= tri_tpar(t, ray) <= tmax) {
        None
    } else if tri_accepts(t, ray) {
        Some(tri_record(t, ray, tri_tpar(t, ray)))
    } else {
        None
    }
}

/// Magnitude bounds on the solve's intermediates for acceptable geometry;
/// they keep everything inside `i128`.
pub proof fn lemma_tri_bounds(t: TriView, ray: RayView)
    requires
        tri_wf(t),
        ray_wf(ray),
    ensures
        crate::vec3::scross_fits(tri_e1(t), tri_e2(t)),
        crate::vec3::bounded(tri_normal_raw(t), 0x2000_0000_0000_0000),
        crate::vec3::sdot_fits(ray.direction, tri_normal_raw(t)),
        -(3 * (0x2000_0000 * 0x2000_0000_0000_0000)) <= tri_det(t, ray) <= 3 * (0x2000_0000
            * 0x2000_0000_0000_0000),
        crate::vec3::scross_fits(tri_ao(t, ray), ray.direction),
        crate::vec3::bounded(tri_dao(t, ray), 0x1000_0000_0000_0000),
        crate::vec3::sdot_fits(tri_e2(t), tri_dao(t, ray)),
        crate::vec3::sdot_fits(tri_e1(t), tri_dao(t, ray)),
        -(3 * (0x4000_0000 * 0x1000_0000_0000_0000)) <= tri_unum(t, ray) <= 3 * (0x4000_0000
            * 0x1000_0000_0000_0000),
        -(3 * (0x4000_0000 * 0x1000_0000_0000_0000)) <= tri_vnum(t, ray) <= 3 * (0x4000_0000
            * 0x1000_0000_0000_0000),
        crate::vec3::sdot_fits(tri_normal_raw(t), tri_ao(t, ray)),
        -(3 * (0x2000_0000_0000_0000 * 0x4000_0000)) <= tri_tnum(t, ray) <= 3 * (
        0x2000_0000_0000_0000 * 0x4000_0000),
{
    lemma_scross_fits(tri_e1(t), tri_e2(t), 0x4000_0000, 0x4000_0000);
    lemma_sdot_fits(ray.direction, tri_normal_raw(t), 0x2000_0000, 0x2000_0000_0000_0000);
    lemma_scross_fits(tri_ao(t, ray), ray.direction, 0x4000_0000, 0x2000_0000);
    lemma_sdot_fits(tri_e2(t), tri_dao(t, ray), 0x4000_0000, 0x1000_0000_0000_0000);
    lemma_sdot_fits(tri_e1(t), tri_dao(t, ray), 0x4000_0000, 0x1000_0000_0000_0000);
    lemma_sdot_fits(tri_normal_raw(t), tri_ao(t, ray), 0x2000_0000_0000_0000, 0x4000_0000);
}

/// Shrinking the upper end of the search range filters the triangle's
/// answer by the reported parameter, exactly as for the sphere: there is
/// only one candidate parameter.
pub proof fn lemma_tri_hit_narrow(t: TriView, ray: RayView, tmin: int, tmax: int, c: int)
    requires
        c <= tmax,
    ensures
        tri_hit(t, ray, tmin, c) == match tri_hit(t, ray, tmin, tmax) {
            Some(h) => if h.t <= c {
                Some(h)
            } else {
                None::<HitView>
            },
            None => None::<HitView>,
        },
{
}

/// Any triangle hit record carries a bounded normal whose exact,
/// pre-rounding form opposes the ray.
pub proof fn lemma_tri_record_props(t: TriView, ray: RayView, tt: int)
    requires
        tri_wf(t),
        ray_wf(ray),
    ensures
        crate::vec3::bounded(tri_record(t, ray, tt).normal, crate::hit::NORMAL_BOUND as int),
        crate::hit::opposes_before_rounding(ray.direction, tri_record(t, ray, tt).normal),
        tri_record(t, ray, tt).t == tt,
{
    lemma_tri_bounds(t, ray);
    let nraw = tri_normal_raw(t);
    let or = oriented_normal(ray.direction, nraw);
    lemma_tdiv_shrinks(or.x, SCALE as int);
    lemma_tdiv_shrinks(or.y, SCALE as int);
    lemma_tdiv_shrinks(or.z, SCALE as int);
    crate::hit::lemma_oriented_normal_opposes(ray.direction, nraw);
    assert(tri_record(t, ray, tt).normal == crate::hit::rounded_by(or, SCALE as int));
}

/// An accepted one-sided hit is never front-faced: acceptance requires
/// `det < 0`, that is `direction . (e1 x e2) > 0`, and the orientation is
/// decided on that very dot product, so the flip always happens — the
/// record stores `frontface == false` and the negated scaled geometric
/// normal.
pub proof fn lemma_tri_hit_back_faced(t: TriView, ray: RayView, tmin: int, tmax: int)
    ensures
        match tri_hit(t, ray, tmin, tmax) {
            Some(h) => !h.frontface && h.normal == crate::vec3::vneg(
                vscale_down(tri_normal_raw(t)),
            ),
            None => true,
        },
{
    match tri_hit(t, ray, tmin, tmax) {
        Some(h) => {
            let nraw = tri_normal_raw(t);
            crate::num::lemma_tdiv_neg(nraw.x, SCALE as int);
            crate::num::lemma_tdiv_neg(nraw.y, SCALE as int);
            crate::num::lemma_tdiv_neg(nraw.z, SCALE as int);
        },
        None => {},
    }
}

impl Hittable for Tri {
    open spec fn wf(&self) -> bool {
        tri_wf(self@)
    }

    open spec fn spec_hit(&self, ray: RayView, tmin: int, tmax: int) -> Option<HitView> {
        tri_hit(self@, ray, tmin, tmax)
    }

    fn hit(&self, ray: &Ray, raytminmax: &Interval) -> (r: Option<Hit>) {
        proof {
            lemma_tri_bounds(self@, ray@);
        }
        let e1 = self.b.sub(&self.a);
        let e2 = self.c.sub(&self.a);
        let normal = e1.cross_raw(&e2);
        let det = -(ray.direction.dot_raw(&normal));

        if det != 0 {
            let ao = ray.origin.sub(&self.a);
            let dao = ao.cross_raw(&ray.direction);
            let unum = e2.dot_raw(&dao);
            let vnum = e1.dot_raw(&dao);
            let tnum = normal.dot_raw(&ao);
            let tpar = crate::num::div_t_s(tnum * SCALE, det);
            if !raytminmax.contains(tpar) {
                return None;
            }

            if det < 0 && unum < 0 && vnum > 0 && tnum < 0 && unum - vnum > det {
                let pos = ray.rayto(tpar);
                // The orientation test reads the sign of
                // `direction . normal`, which is exactly `-det`: with the
                // accepted `det < 0` the candidate always flips.
                let frontface = det > 0;
                let outnorm = if frontface {
                    normal
                } else {
                    normal.neg()
                };
                let hitrec = Hit { pos, normal: outnorm.scale_down(), t: tpar, frontface };
                proof {
                    assert(hitrec@ == tri_record(self@, ray@, tpar as int));
                }
                return Some(hitrec);
            }
            return None;
        }
        None
    }
}

} // verus!
