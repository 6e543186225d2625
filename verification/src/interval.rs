//! A closed numeric range `[min, max]` used to bound, and progressively
//! shrink, the valid parametric distance along a ray.

use vstd::prelude::*;

verus! {

/// Raw fixed-point bound on ray parameters the engine works with: 2^48.
/// A parameter accepted by an intersection test always lies in
/// `[-T_MAX, T_MAX]`; intermediate arithmetic is sized for that range.
/// The bound covers every true forward hit of acceptable geometry: with
/// coordinates within `COORD_MAX` (2^29 raw) and a direction of at least
/// one raw unit of squared length, an intersection parameter stays below
/// roughly 2^47 raw, so a search over `[0, T_MAX]` misses nothing.
pub const T_MAX: i128 = 0x1_0000_0000_0000;

/// A closed range of fixed-point scalars. The invariant `min <= max` is
/// assumed by callers that need it, not enforced by the type: a reversed
/// interval simply contains nothing.
pub struct Interval {
    pub min: i128,
    pub max: i128,
}

impl Interval {
    /// Closed containment, as a predicate over mathematical integers.
    pub open spec fn spec_contains(self, val: int) -> bool {
        self.min <= val <= self.max
    }

    /// Open containment.
    pub open spec fn spec_surrounds(self, val: int) -> bool {
        self.min < val < self.max
    }

    /// Both bounds lie in the range the intersection tests are sized for.
    pub open spec fn t_bounded(self) -> bool {
        &&& -T_MAX <= self.min <= T_MAX
        &&& -T_MAX <= self.max <= T_MAX
    }

    /// Width of the range.
    pub fn size(&self) -> (r: i128)
        requires
            self.t_bounded(),
        ensures
            r == self.max - self.min,
    {
        self.max - self.min
    }

    /// Closed test: `min <= val <= max`.
    pub fn contains(&self, val: i128) -> (r: bool)
        ensures
            r == self.spec_contains(val as int),
    {
        self.min <= val && val <= self.max
    }

    /// Open test: `min < val < max`.
    pub fn surrounds(&self, val: i128) -> (r: bool)
        ensures
            r == self.spec_surrounds(val as int),
    {
        self.min < val && val < self.max
    }
}

} // verus!
