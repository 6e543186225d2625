//! Three-component fixed-point vectors.
//!
//! `Vec3` is the executable type: each component is an `i128` holding
//! `SCALE` times its real value. Its view `Vec3i` carries the components as
//! mathematical integers; every vector operation is specified exactly over
//! that view. Dot and cross products are kept *raw*: they return the plain
//! sum of component products, without rescaling, so that sign tests on them
//! are exact.

use vstd::prelude::*;
use crate::num::{tdiv, SCALE};

verus! {

/// Bound on the raw components of scene geometry (centres, vertices, ray
/// origins and directions) and on sphere radii: 2^29, or 2^13 in real
/// units. Intermediate arithmetic of the intersection tests is sized so
/// that geometry within this range never overflows an `i128`.
pub const COORD_MAX: i128 = 0x2000_0000;

/// A fixed-point vector: raw components, each `SCALE` times the real value.
#[derive(Clone, Copy, PartialEq, Eq, Structural, Debug)]
pub struct Vec3 {
    pub x: i128,
    pub y: i128,
    pub z: i128,
}

/// The mathematical view of a vector: its raw components as integers.
pub struct Vec3i {
    pub x: int,
    pub y: int,
    pub z: int,
}

impl View for Vec3 {
    type V = Vec3i;

    open spec fn view(&self) -> Vec3i {
        Vec3i { x: self.x as int, y: self.y as int, z: self.z as int }
    }
}

/// Every component lies in `[-m, m]`.
pub open spec fn bounded(v: Vec3i, m: int) -> bool {
    &&& -m <= v.x <= m
    &&& -m <= v.y <= m
    &&& -m <= v.z <= m
}

/// The vector is acceptable scene geometry.
pub open spec fn in_coord_range(v: Vec3i) -> bool {
    bounded(v, COORD_MAX as int)
}

pub open spec fn vadd(a: Vec3i, b: Vec3i) -> Vec3i {
    Vec3i { x: a.x + b.x, y: a.y + b.y, z: a.z + b.z }
}

pub open spec fn vsub(a: Vec3i, b: Vec3i) -> Vec3i {
    Vec3i { x: a.x - b.x, y: a.y - b.y, z: a.z - b.z }
}

pub open spec fn vneg(a: Vec3i) -> Vec3i {
    Vec3i { x: -a.x, y: -a.y, z: -a.z }
}

/// Raw dot product: the plain sum of component products, carrying the
/// product of the operands' scales.
pub open spec fn sdot(a: Vec3i, b: Vec3i) -> int {
    a.x * b.x + a.y * b.y + a.z * b.z
}

/// Raw cross product, carrying the product of the operands' scales.
pub open spec fn scross(a: Vec3i, b: Vec3i) -> Vec3i {
    Vec3i {
        x: a.y * b.z - a.z * b.y,
        y: a.z * b.x - a.x * b.z,
        z: a.x * b.y - a.y * b.x,
    }
}

/// Every component divided by `SCALE`, rounding toward zero: brings a raw
/// product back to the scale of its operands.
pub open spec fn vscale_down(a: Vec3i) -> Vec3i {
    Vec3i {
        x: tdiv(a.x, SCALE as int),
        y: tdiv(a.y, SCALE as int),
        z: tdiv(a.z, SCALE as int),
    }
}

/// Fixed-point multiplication of a vector by a raw scalar `t`: each
/// component is `t * v_i / SCALE`, rounded toward zero, so the result
/// carries the scale of `v`.
pub open spec fn vmul_fx(v: Vec3i, t: int) -> Vec3i {
    Vec3i {
        x: tdiv(t * v.x, SCALE as int),
        y: tdiv(t * v.y, SCALE as int),
        z: tdiv(t * v.z, SCALE as int),
    }
}

/// Fixed-point division of a vector by a raw scalar `k`: each component is
/// `v_i * SCALE / k`, rounded toward zero, so the result carries the scale
/// of `v`.
pub open spec fn vdiv_fx(v: Vec3i, k: int) -> Vec3i {
    Vec3i {
        x: tdiv(v.x * SCALE, k),
        y: tdiv(v.y * SCALE, k),
        z: tdiv(v.z * SCALE, k),
    }
}

/// The intermediate terms of a raw dot product stay inside `i128`.
pub open spec fn sdot_fits(a: Vec3i, b: Vec3i) -> bool {
    &&& i128::MIN <= a.x * b.x <= i128::MAX
    &&& i128::MIN <= a.y * b.y <= i128::MAX
    &&& i128::MIN <= a.z * b.z <= i128::MAX
    &&& i128::MIN <= a.x * b.x + a.y * b.y <= i128::MAX
    &&& i128::MIN <= sdot(a, b) <= i128::MAX
}

/// The intermediate terms of a raw cross product stay inside `i128`.
pub open spec fn scross_fits(a: Vec3i, b: Vec3i) -> bool {
    &&& i128::MIN <= a.y * b.z <= i128::MAX
    &&& i128::MIN <= a.z * b.y <= i128::MAX
    &&& i128::MIN <= a.z * b.x <= i128::MAX
    &&& i128::MIN <= a.x * b.z <= i128::MAX
    &&& i128::MIN <= a.x * b.y <= i128::MAX
    &&& i128::MIN <= a.y * b.x <= i128::MAX
    &&& bounded(scross(a, b), i128::MAX as int)
}

/// Operands bounded by `m1` and `m2` with a small enough product make a
/// raw dot product safe, and bound its value by `3 * m1 * m2`.
pub proof fn lemma_sdot_fits(a: Vec3i, b: Vec3i, m1: int, m2: int)
    requires
        0 <= m1,
        0 <= m2,
        bounded(a, m1),
        bounded(b, m2),
        3 * (m1 * m2) <= i128::MAX,
    ensures
        sdot_fits(a, b),
        -(3 * (m1 * m2)) <= sdot(a, b) <= 3 * (m1 * m2),
{
    assert(-(m1 * m2) <= a.x * b.x <= m1 * m2 && -(m1 * m2) <= a.y * b.y <= m1 * m2 && -(m1
        * m2) <= a.z * b.z <= m1 * m2) by (nonlinear_arith)
        requires
            0 <= m1,
            0 <= m2,
            bounded(a, m1),
            bounded(b, m2),
    ;
}

/// Operands bounded by `m1` and `m2` with a small enough product make a
/// raw cross product safe, and bound each component by `2 * m1 * m2`.
pub proof fn lemma_scross_fits(a: Vec3i, b: Vec3i, m1: int, m2: int)
    requires
        0 <= m1,
        0 <= m2,
        bounded(a, m1),
        bounded(b, m2),
        2 * (m1 * m2) <= i128::MAX,
    ensures
        scross_fits(a, b),
        bounded(scross(a, b), 2 * (m1 * m2)),
{
    assert(-(m1 * m2) <= a.y * b.z <= m1 * m2 && -(m1 * m2) <= a.z * b.y <= m1 * m2 && -(m1
        * m2) <= a.z * b.x <= m1 * m2 && -(m1 * m2) <= a.x * b.z <= m1 * m2 && -(m1 * m2) <= a.x
        * b.y <= m1 * m2 && -(m1 * m2) <= a.y * b.x <= m1 * m2) by (nonlinear_arith)
        requires
            0 <= m1,
            0 <= m2,
            bounded(a, m1),
            bounded(b, m2),
    ;
}

/// Negating one operand negates a raw dot product.
pub proof fn lemma_sdot_neg(a: Vec3i, b: Vec3i)
    ensures
        sdot(a, vneg(b)) == -sdot(a, b),
{
    assert(a.x * (-b.x) == -(a.x * b.x)) by (nonlinear_arith);
    assert(a.y * (-b.y) == -(a.y * b.y)) by (nonlinear_arith);
    assert(a.z * (-b.z) == -(a.z * b.z)) by (nonlinear_arith);
}

impl Vec3 {
    /// Component-wise sum.
    pub fn add(&self, o: &Vec3) -> (r: Vec3)
        requires
            i128::MIN <= self@.x + o@.x <= i128::MAX,
            i128::MIN <= self@.y + o@.y <= i128::MAX,
            i128::MIN <= self@.z + o@.z <= i128::MAX,
        ensures
            r@ == vadd(self@, o@),
    {
        Vec3 { x: self.x + o.x, y: self.y + o.y, z: self.z + o.z }
    }

    /// Component-wise difference.
    pub fn sub(&self, o: &Vec3) -> (r: Vec3)
        requires
            i128::MIN <= self@.x - o@.x <= i128::MAX,
            i128::MIN <= self@.y - o@.y <= i128::MAX,
            i128::MIN <= self@.z - o@.z <= i128::MAX,
        ensures
            r@ == vsub(self@, o@),
    {
        Vec3 { x: self.x - o.x, y: self.y - o.y, z: self.z - o.z }
    }

    /// Component-wise negation.
    pub fn neg(&self) -> (r: Vec3)
        requires
            self@.x > i128::MIN,
            self@.y > i128::MIN,
            self@.z > i128::MIN,
        ensures
            r@ == vneg(self@),
    {
        Vec3 { x: -self.x, y: -self.y, z: -self.z }
    }

    /// Raw dot product.
    pub fn dot_raw(&self, o: &Vec3) -> (r: i128)
        requires
            sdot_fits(self@, o@),
        ensures
            r == sdot(self@, o@),
    {
        self.x * o.x + self.y * o.y + self.z * o.z
    }

    /// Raw cross product.
    pub fn cross_raw(&self, o: &Vec3) -> (r: Vec3)
        requires
            scross_fits(self@, o@),
        ensures
            r@ == scross(self@, o@),
    {
        Vec3 {
            x: self.y * o.z - self.z * o.y,
            y: self.z * o.x - self.x * o.z,
            z: self.x * o.y - self.y * o.x,
        }
    }

    /// Fixed-point multiplication by a raw scalar.
    pub fn mul_fx(&self, t: i128) -> (r: Vec3)
        requires
            i128::MIN < t * self@.x <= i128::MAX,
            i128::MIN < t * self@.y <= i128::MAX,
            i128::MIN < t * self@.z <= i128::MAX,
        ensures
            r@ == vmul_fx(self@, t as int),
    {
        Vec3 {
            x: crate::num::div_t(t * self.x, SCALE),
            y: crate::num::div_t(t * self.y, SCALE),
            z: crate::num::div_t(t * self.z, SCALE),
        }
    }

    /// Fixed-point division by a raw scalar.
    pub fn div_fx(&self, k: i128) -> (r: Vec3)
        requires
            k >= 1,
            i128::MIN < self@.x * SCALE <= i128::MAX,
            i128::MIN < self@.y * SCALE <= i128::MAX,
            i128::MIN < self@.z * SCALE <= i128::MAX,
        ensures
            r@ == vdiv_fx(self@, k as int),
    {
        Vec3 {
            x: crate::num::div_t(self.x * SCALE, k),
            y: crate::num::div_t(self.y * SCALE, k),
            z: crate::num::div_t(self.z * SCALE, k),
        }
    }

    /// Every component divided by `SCALE`, rounding toward zero.
    pub fn scale_down(&self) -> (r: Vec3)
        requires
            self@.x > i128::MIN,
            self@.y > i128::MIN,
            self@.z > i128::MIN,
        ensures
            r@ == vscale_down(self@),
    {
        Vec3 {
            x: crate::num::div_t(self.x, SCALE),
            y: crate::num::div_t(self.y, SCALE),
            z: crate::num::div_t(self.z, SCALE),
        }
    }
}

} // verus!
