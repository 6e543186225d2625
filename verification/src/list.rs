//! The scene collection: an ordered, growable list of primitives, resolved
//! against a ray by querying each primitive in list order while shrinking
//! the search interval to the closest hit found so far.

use vstd::prelude::*;
use crate::hit::{opt_hit_view, Hit, HitView, Hittable};
use crate::interval::{Interval, T_MAX};
use crate::ray::{ray_wf, Ray, RayView};
use crate::sphere::Sphere;
use crate::tri::Tri;

verus! {

/// The closed set of primitive kinds a scene can hold, dispatched by
/// pattern match.
#[derive(Clone, Copy, PartialEq, Eq, Structural, Debug)]
pub enum Primitive {
    Sphere(Sphere),
    Tri(Tri),
}

impl Hittable for Primitive {
    open spec fn wf(&self) -> bool {
        match self {
            Primitive::Sphere(s) => s.wf(),
            Primitive::Tri(t) => t.wf(),
        }
    }

    open spec fn spec_hit(&self, ray: RayView, tmin: int, tmax: int) -> Option<HitView> {
        match self {
            Primitive::Sphere(s) => s.spec_hit(ray, tmin, tmax),
            Primitive::Tri(t) => t.spec_hit(ray, tmin, tmax),
        }
    }

    fn hit(&self, ray: &Ray, raytminmax: &Interval) -> (r: Option<Hit>) {
        match self {
            Primitive::Sphere(s) => s.hit(ray, raytminmax),
            Primitive::Tri(t) => t.hit(ray, raytminmax),
        }
    }
}

/// A reported intersection parameter lies in the queried closed range:
/// both solvers only ever accept a contained parameter.
pub proof fn lemma_hit_t_in_range(p: Primitive, ray: RayView, tmin: int, tmax: int)
    ensures
        match p.spec_hit(ray, tmin, tmax) {
            Some(h) => tmin <= h.t <= tmax,
            None => true,
        },
{
}

/// The nearest-hit fold over the tail `objs`, carrying the best hit found
/// so far: each primitive is queried on `[tmin, best.t]` (or on the full
/// `[tmin, tmax]` while nothing has been hit), and a hit replaces the
/// carried best. Because the upper bound is closed, a later primitive
/// striking at exactly the carried `t` still replaces the result: ties
/// break last-wins in list order.
pub open spec fn resolve_from(
    objs: Seq<Primitive>,
    ray: RayView,
    tmin: int,
    tmax: int,
    best: Option<HitView>,
) -> Option<HitView>
    decreases objs.len(),
{
    if objs.len() == 0 {
        best
    } else {
        let bound = match best {
            Some(b) => b.t,
            None => tmax,
        };
        let cur = match objs[0].spec_hit(ray, tmin, bound) {
            Some(h) => Some(h),
            None => best,
        };
        resolve_from(objs.drop_first(), ray, tmin, tmax, cur)
    }
}

/// Properties of any hit a single primitive reports on `[tmin, tmax]`: the
/// normal is bounded and, before its components were rounded, opposed the
/// ray exactly (the orientation invariant), and the parameter lies in the
/// queried range.
pub proof fn lemma_prim_hit_props(p: Primitive, ray: RayView, tmin: int, tmax: int)
    requires
        p.wf(),
        ray_wf(ray),
        -T_MAX <= tmin,
        tmax <= T_MAX,
    ensures
        match p.spec_hit(ray, tmin, tmax) {
            Some(h) => {
                &&& crate::vec3::bounded(h.normal, crate::hit::NORMAL_BOUND as int)
                &&& crate::hit::opposes_before_rounding(ray.direction, h.normal)
                &&& tmin <= h.t <= tmax
            },
            None => true,
        },
{
    match p {
        Primitive::Sphere(s) => {
            match s.spec_hit(ray, tmin, tmax) {
                Some(h) => {
                    if tmin <= crate::sphere::sphere_root1(s@, ray) <= tmax {
                        crate::sphere::lemma_sphere_record_props(
                            s@,
                            ray,
                            crate::sphere::sphere_root1(s@, ray),
                        );
                    } else {
                        crate::sphere::lemma_sphere_record_props(
                            s@,
                            ray,
                            crate::sphere::sphere_root2(s@, ray),
                        );
                    }
                },
                None => {},
            }
        },
        Primitive::Tri(t) => {
            match t.spec_hit(ray, tmin, tmax) {
                Some(h) => {
                    crate::tri::lemma_tri_record_props(t@, ray, crate::tri::tri_tpar(t@, ray));
                },
                None => {},
            }
        },
    }
}

/// The orientation invariant and the range and magnitude guarantees carry
/// through nearest-hit resolution: whatever hit a scene reports on
/// `[tmin, tmax]`, its normal is bounded, its exact pre-rounding form
/// opposes the ray — so the stored normal's raw dot product with the
/// direction stays below one fixed-point unit per component — and its
/// parameter lies in the range. The carried `best` must satisfy the same.
pub proof fn lemma_resolve_props(
    objs: Seq<Primitive>,
    ray: RayView,
    tmin: int,
    tmax: int,
    best: Option<HitView>,
)
    requires
        forall|i: int| 0 <= i < objs.len() ==> (#[trigger] objs[i]).wf(),
        ray_wf(ray),
        -T_MAX <= tmin,
        tmax <= T_MAX,
        match best {
            Some(b) => {
                &&& crate::vec3::bounded(b.normal, crate::hit::NORMAL_BOUND as int)
                &&& crate::hit::opposes_before_rounding(ray.direction, b.normal)
                &&& tmin <= b.t <= tmax
            },
            None => true,
        },
    ensures
        match resolve_from(objs, ray, tmin, tmax, best) {
            Some(h) => {
                &&& crate::vec3::bounded(h.normal, crate::hit::NORMAL_BOUND as int)
                &&& crate::hit::opposes_before_rounding(ray.direction, h.normal)
                &&& crate::vec3::sdot(ray.direction, h.normal) <= 3 * (
                crate::vec3::COORD_MAX as int)
                &&& tmin <= h.t <= tmax
            },
            None => true,
        },
    decreases objs.len(),
{
    match resolve_from(objs, ray, tmin, tmax, best) {
        Some(h) => {
            lemma_resolve_props_rec(objs, ray, tmin, tmax, best);
            crate::hit::lemma_opposes_rounding_bound(
                ray.direction,
                h.normal,
                crate::vec3::COORD_MAX as int,
            );
        },
        None => {
            lemma_resolve_props_rec(objs, ray, tmin, tmax, best);
        },
    }
}

/// The inductive core of `lemma_resolve_props`.
proof fn lemma_resolve_props_rec(
    objs: Seq<Primitive>,
    ray: RayView,
    tmin: int,
    tmax: int,
    best: Option<HitView>,
)
    requires
        forall|i: int| 0 <= i < objs.len() ==> (#[trigger] objs[i]).wf(),
        ray_wf(ray),
        -T_MAX <= tmin,
        tmax <= T_MAX,
        match best {
            Some(b) => {
                &&& crate::vec3::bounded(b.normal, crate::hit::NORMAL_BOUND as int)
                &&& crate::hit::opposes_before_rounding(ray.direction, b.normal)
                &&& tmin <= b.t <= tmax
            },
            None => true,
        },
    ensures
        match resolve_from(objs, ray, tmin, tmax, best) {
            Some(h) => {
                &&& crate::vec3::bounded(h.normal, crate::hit::NORMAL_BOUND as int)
                &&& crate::hit::opposes_before_rounding(ray.direction, h.normal)
                &&& tmin <= h.t <= tmax
            },
            None => true,
        },
    decreases objs.len(),
{
    if objs.len() > 0 {
        let bound = match best {
            Some(b) => b.t,
            None => tmax,
        };
        lemma_prim_hit_props(objs[0], ray, tmin, bound);
        let cur = match objs[0].spec_hit(ray, tmin, bound) {
            Some(h) => Some(h),
            None => best,
        };
        assert(forall|i: int|
            0 <= i < objs.drop_first().len() ==> (#[trigger] objs.drop_first()[i]).wf());
        lemma_resolve_props_rec(objs.drop_first(), ray, tmin, tmax, cur);
    }
}

/// Shrinking the upper end of the search range filters a primitive's
/// answer by the reported parameter.
pub proof fn lemma_prim_hit_narrow(p: Primitive, ray: RayView, tmin: int, tmax: int, c: int)
    requires
        p.wf(),
        ray_wf(ray),
        c <= tmax,
    ensures
        p.spec_hit(ray, tmin, c) == match p.spec_hit(ray, tmin, tmax) {
            Some(h) => if h.t <= c {
                Some(h)
            } else {
                None::<HitView>
            },
            None => None::<HitView>,
        },
{
    match p {
        Primitive::Sphere(s) => {
            crate::sphere::lemma_sphere_hit_narrow(s@, ray, tmin, tmax, c);
        },
        Primitive::Tri(t) => {
            crate::tri::lemma_tri_hit_narrow(t@, ray, tmin, tmax, c);
        },
    }
}

/// Nearest-hit resolution, declaratively: the fold reports absence exactly
/// when every primitive misses the full range (and nothing better was
/// carried in); otherwise it reports a hit that some primitive gives on
/// the full range (or the carried one), whose parameter is no larger than
/// any primitive's. Ties on the exact parameter break last-wins in list
/// order, which the operational `resolve_from` fixes.
pub proof fn lemma_resolve_nearest(
    objs: Seq<Primitive>,
    ray: RayView,
    tmin: int,
    tmax: int,
    best: Option<HitView>,
)
    requires
        forall|i: int| 0 <= i < objs.len() ==> (#[trigger] objs[i]).wf(),
        ray_wf(ray),
        match best {
            Some(b) => b.t <= tmax,
            None => true,
        },
    ensures
        match resolve_from(objs, ray, tmin, tmax, best) {
            Some(h) => {
                &&& (best == Some(h) || exists|i: int|
                    0 <= i < objs.len() && (#[trigger] objs[i]).spec_hit(ray, tmin, tmax) == Some(
                        h,
                    ))
                &&& forall|j: int|
                    0 <= j < objs.len() ==> match (#[trigger] objs[j]).spec_hit(
                        ray,
                        tmin,
                        tmax,
                    ) {
                        Some(hj) => h.t <= hj.t,
                        None => true,
                    }
                &&& match best {
                    Some(b) => h.t <= b.t,
                    None => true,
                }
            },
            None => {
                &&& best is None
                &&& forall|j: int|
                    0 <= j < objs.len() ==> (#[trigger] objs[j]).spec_hit(ray, tmin, tmax)
                        is None
            },
        },
    decreases objs.len(),
{
    if objs.len() > 0 {
        let rest = objs.drop_first();
        let bound = match best {
            Some(b) => b.t,
            None => tmax,
        };
        lemma_hit_t_in_range(objs[0], ray, tmin, tmax);
        lemma_prim_hit_narrow(objs[0], ray, tmin, tmax, bound);
        let cur = match objs[0].spec_hit(ray, tmin, bound) {
            Some(h) => Some(h),
            None => best,
        };
        assert(forall|i: int| 0 <= i < rest.len() ==> (#[trigger] rest[i]).wf());
        lemma_resolve_nearest(rest, ray, tmin, tmax, cur);
        match resolve_from(objs, ray, tmin, tmax, best) {
            Some(h) => {
                if cur == Some(h) && objs[0].spec_hit(ray, tmin, bound) == Some(h) {
                    assert(objs[0].spec_hit(ray, tmin, tmax) == Some(h));
                    assert(exists|i: int|
                        0 <= i < objs.len() && (#[trigger] objs[i]).spec_hit(ray, tmin, tmax)
                            == Some(h));
                } else if !(cur == Some(h)) {
                    let i = choose|i: int|
                        0 <= i < rest.len() && (#[trigger] rest[i]).spec_hit(ray, tmin, tmax)
                            == Some(h);
                    assert(objs[i + 1] == rest[i]);
                    assert(exists|i: int|
                        0 <= i < objs.len() && (#[trigger] objs[i]).spec_hit(ray, tmin, tmax)
                            == Some(h));
                }
                assert forall|j: int| 0 <= j < objs.len() implies match (
                #[trigger] objs[j]).spec_hit(ray, tmin, tmax) {
                    Some(hj) => h.t <= hj.t,
                    None => true,
                } by {
                    if j > 0 {
                        assert(rest[j - 1] == objs[j]);
                    }
                }
            },
            None => {
                assert forall|j: int| 0 <= j < objs.len() implies (#[trigger] objs[j]).spec_hit(
                    ray,
                    tmin,
                    tmax,
                ) is None by {
                    if j > 0 {
                        assert(rest[j - 1] == objs[j]);
                    }
                }
            },
        }
    }
}

/// A scene of two primitives along one ray's path reports the hit with the
/// smaller parameter, and swapping the list order does not change the
/// result when the two parameters differ.
pub proof fn lemma_two_primitives_nearest(
    p: Primitive,
    q: Primitive,
    ray: RayView,
    tmin: int,
    tmax: int,
    hp: HitView,
    hq: HitView,
)
    requires
        p.wf(),
        q.wf(),
        ray_wf(ray),
        p.spec_hit(ray, tmin, tmax) == Some(hp),
        q.spec_hit(ray, tmin, tmax) == Some(hq),
        hp.t != hq.t,
    ensures
        resolve_from(seq![p, q], ray, tmin, tmax, None) == if hp.t < hq.t {
            Some(hp)
        } else {
            Some(hq)
        },
        resolve_from(seq![q, p], ray, tmin, tmax, None) == resolve_from(
            seq![p, q],
            ray,
            tmin,
            tmax,
            None,
        ),
{
    lemma_hit_t_in_range(p, ray, tmin, tmax);
    lemma_hit_t_in_range(q, ray, tmin, tmax);
    lemma_prim_hit_narrow(q, ray, tmin, tmax, hp.t);
    lemma_prim_hit_narrow(p, ray, tmin, tmax, hq.t);
    assert(seq![p, q].drop_first() =~= seq![q]);
    assert(seq![q, p].drop_first() =~= seq![p]);
    assert(seq![q].drop_first() =~= Seq::<Primitive>::empty());
    assert(seq![p].drop_first() =~= Seq::<Primitive>::empty());
    assert(seq![p, q][0] == p);
    assert(seq![q, p][0] == q);
    assert(seq![q][0] == q);
    assert(seq![p][0] == p);
    assert(resolve_from(seq![p, q], ray, tmin, tmax, None) == resolve_from(
        seq![q],
        ray,
        tmin,
        tmax,
        Some(hp),
    ));
    assert(resolve_from(seq![q, p], ray, tmin, tmax, None) == resolve_from(
        seq![p],
        ray,
        tmin,
        tmax,
        Some(hq),
    ));
    if hq.t < hp.t {
        assert(resolve_from(seq![q], ray, tmin, tmax, Some(hp)) == resolve_from(
            Seq::<Primitive>::empty(),
            ray,
            tmin,
            tmax,
            Some(hq),
        ));
        assert(resolve_from(seq![p], ray, tmin, tmax, Some(hq)) == resolve_from(
            Seq::<Primitive>::empty(),
            ray,
            tmin,
            tmax,
            Some(hq),
        ));
    } else {
        assert(resolve_from(seq![q], ray, tmin, tmax, Some(hp)) == resolve_from(
            Seq::<Primitive>::empty(),
            ray,
            tmin,
            tmax,
            Some(hp),
        ));
        assert(resolve_from(seq![p], ray, tmin, tmax, Some(hq)) == resolve_from(
            Seq::<Primitive>::empty(),
            ray,
            tmin,
            tmax,
            Some(hp),
        ));
    }
}

/// An ordered, growable collection of primitives. The list owns its
/// members; resolving a ray reads the list and mutates nothing.
pub struct HittableList {
    pub hittables: Vec<Primitive>,
}

impl Hittable for HittableList {
    open spec fn wf(&self) -> bool {
        forall|i: int|
            0 <= i < self.hittables@.len() ==> (#[trigger] self.hittables@[i]).wf()
    }

    open spec fn spec_hit(&self, ray: RayView, tmin: int, tmax: int) -> Option<HitView> {
        resolve_from(self.hittables@, ray, tmin, tmax, None)
    }

    fn hit(&self, ray: &Ray, raytminmax: &Interval) -> (r: Option<Hit>) {
        let mut temprec: Option<Hit> = None;
        let mut closest: i128 = raytminmax.max;
        let ghost objs = self.hittables@;
        let ghost tmin = raytminmax.min as int;
        let ghost tmax = raytminmax.max as int;

        let n = self.hittables.len();
        let mut i: usize = 0;
        proof {
            assert(objs.skip(0) =~= objs);
        }
        while i < n
            invariant
                0 <= i <= n,
                n == objs.len(),
                objs == self.hittables@,
                self.wf(),
                ray_wf(ray@),
                raytminmax.t_bounded(),
                tmin == raytminmax.min as int,
                tmax == raytminmax.max as int,
                -T_MAX <= closest <= T_MAX,
                closest as int == match opt_hit_view(temprec) {
                    Some(b) => b.t,
                    None => tmax,
                },
                resolve_from(objs.skip(i as int), ray@, tmin, tmax, opt_hit_view(temprec))
                    == resolve_from(objs, ray@, tmin, tmax, None),
            decreases n - i,
        {
            let object = &self.hittables[i];
            let narrowed = Interval { min: raytminmax.min, max: closest };
            proof {
                assert(objs.skip(i as int)[0] == objs[i as int]);
                lemma_hit_t_in_range(*object, ray@, tmin, closest as int);
            }
            match object.hit(ray, &narrowed) {
                Some(hitrec) => {
                    closest = hitrec.t;
                    temprec = Some(hitrec);
                },
                None => {},
            }
            proof {
                assert(objs.skip(i as int).drop_first() =~= objs.skip(i as int + 1));
            }
            i = i + 1;
        }
        proof {
            assert(objs.skip(n as int).len() == 0);
        }
        temprec
    }
}

} // verus!
