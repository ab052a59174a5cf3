//! Plane geometry: points and vectors, and axis-aligned boxes with their
//! overlap test and penetration vector.

use crate::fixed::{floor_sqrt, isqrt, magnitude, Fixed};
use vstd::prelude::*;

verus! {

/// A point or a displacement in the plane, in world units.
#[derive(Clone, Copy, PartialEq, Eq, Debug, Structural)]
pub struct Vec2 {
    pub x: Fixed,
    pub y: Fixed,
}

impl Vec2 {
    pub open spec fn spec_add(self, rhs: Vec2) -> Vec2 {
        Vec2 { x: self.x.spec_add(rhs.x), y: self.y.spec_add(rhs.y) }
    }

    pub open spec fn spec_sub(self, rhs: Vec2) -> Vec2 {
        Vec2 { x: self.x.spec_sub(rhs.x), y: self.y.spec_sub(rhs.y) }
    }

    pub open spec fn spec_neg(self) -> Vec2 {
        Vec2 { x: self.x.spec_neg(), y: self.y.spec_neg() }
    }

    /// Both components without their sign.
    pub open spec fn spec_abs(self) -> Vec2 {
        Vec2 { x: self.x.spec_abs(), y: self.y.spec_abs() }
    }

    /// Both components multiplied by `k`.
    pub open spec fn spec_scale(self, k: Fixed) -> Vec2 {
        Vec2 { x: self.x.spec_mul(k), y: self.y.spec_mul(k) }
    }

    /// Both components divided by `k`.
    pub open spec fn spec_shrink(self, k: Fixed) -> Vec2 {
        Vec2 { x: self.x.spec_div(k), y: self.y.spec_div(k) }
    }

    /// The Euclidean length, rounded down to a raw step.
    pub open spec fn spec_norm(self) -> Fixed {
        Fixed::of(floor_sqrt(self.x.raw * self.x.raw + self.y.raw * self.y.raw))
    }

    pub fn new(x: Fixed, y: Fixed) -> (v: Vec2)
        ensures
            v.x == x,
            v.y == y,
    {
        Vec2 { x, y }
    }

    /// The vector with the given raw components.
    pub fn from_raw(x: i64, y: i64) -> (v: Vec2)
        ensures
            v.x.raw == x,
            v.y.raw == y,
    {
        Vec2 { x: Fixed { raw: x }, y: Fixed { raw: y } }
    }

    #[verifier::when_used_as_spec(spec_add)]
    pub fn add(self, rhs: Vec2) -> (v: Vec2)
        ensures
            v == self.spec_add(rhs),
    {
        Vec2 { x: self.x.add(rhs.x), y: self.y.add(rhs.y) }
    }

    #[verifier::when_used_as_spec(spec_sub)]
    pub fn sub(self, rhs: Vec2) -> (v: Vec2)
        ensures
            v == self.spec_sub(rhs),
    {
        Vec2 { x: self.x.sub(rhs.x), y: self.y.sub(rhs.y) }
    }

    #[verifier::when_used_as_spec(spec_neg)]
    pub fn neg(self) -> (v: Vec2)
        ensures
            v == self.spec_neg(),
    {
        Vec2 { x: self.x.neg(), y: self.y.neg() }
    }

    #[verifier::when_used_as_spec(spec_abs)]
    pub fn abs(self) -> (v: Vec2)
        ensures
            v == self.spec_abs(),
    {
        Vec2 { x: self.x.abs(), y: self.y.abs() }
    }

    #[verifier::when_used_as_spec(spec_scale)]
    pub fn scale(self, k: Fixed) -> (v: Vec2)
        ensures
            v == self.spec_scale(k),
    {
        Vec2 { x: self.x.mul(k), y: self.y.mul(k) }
    }

    #[verifier::when_used_as_spec(spec_shrink)]
    pub fn shrink(self, k: Fixed) -> (v: Vec2)
        ensures
            v == self.spec_shrink(k),
    {
        Vec2 { x: self.x.div(k), y: self.y.div(k) }
    }

    #[verifier::when_used_as_spec(spec_norm)]
    pub fn norm(self) -> (n: Fixed)
        ensures
            n == self.spec_norm(),
    {
        let mx: u128 = self.x.magnitude() as u128;
        let my: u128 = self.y.magnitude() as u128;
        assert(mx * mx <= 0x4000_0000_0000_0000_0000_0000_0000_0000) by (nonlinear_arith)
            requires
                0 <= mx <= 0x8000_0000_0000_0000,
        ;
        assert(my * my <= 0x4000_0000_0000_0000_0000_0000_0000_0000) by (nonlinear_arith)
            requires
                0 <= my <= 0x8000_0000_0000_0000,
        ;
        assert(mx * mx == self.x.raw * self.x.raw) by (nonlinear_arith)
            requires
                mx == self.x.raw || mx == -self.x.raw,
        ;
        assert(my * my == self.y.raw * self.y.raw) by (nonlinear_arith)
            requires
                my == self.y.raw || my == -self.y.raw,
        ;
        let root: u64 = isqrt(mx * mx + my * my);
        if root > 0x7fff_ffff_ffff_ffff {
            Fixed { raw: i64::MAX }
        } else {
            Fixed { raw: root as i64 }
        }
    }
}

/// The penetration of one box into another along a single axis.
///
/// `ca`, `ha` are the center and half extent of the first box on that axis,
/// `cb`, `hb` those of the second. The boxes overlap on the axis when their
/// centers are closer than the sum of the half extents; touching is no
/// overlap. The depth is then the distance still missing to that sum, signed
/// so that it points from the second box toward the first box's side: below
/// zero when the first center is not above the second, above zero otherwise.
pub open spec fn axis_overlap(ca: Fixed, ha: Fixed, cb: Fixed, hb: Fixed) -> Option<Fixed> {
    let gap = cb.spec_sub(ca).spec_abs();
    let reach = ha.spec_add(hb);
    if gap.raw < reach.raw {
        if ca.raw > cb.raw {
            Some(gap.spec_sub(reach).spec_neg())
        } else {
            Some(gap.spec_sub(reach))
        }
    } else {
        None
    }
}

fn axis_overlap_exec(ca: Fixed, ha: Fixed, cb: Fixed, hb: Fixed) -> (o: Option<Fixed>)
    ensures
        o == axis_overlap(ca, ha, cb, hb),
{
    let gap = cb.sub(ca).abs();
    let reach = ha.add(hb);
    if gap.raw < reach.raw {
        if ca.raw > cb.raw {
            Some(gap.sub(reach).neg())
        } else {
            Some(gap.sub(reach))
        }
    } else {
        None
    }
}

/// An axis-aligned box, given by its center and its half extents.
#[derive(Clone, Copy, PartialEq, Eq, Debug, Structural)]
pub struct AABB {
    pub center: Vec2,
    pub half_size: Vec2,
}

impl AABB {
    /// A box is well formed when neither half extent is negative.
    pub open spec fn wf(self) -> bool {
        self.half_size.x.raw >= 0 && self.half_size.y.raw >= 0
    }

    /// The box moved by `v`, its size unchanged.
    pub open spec fn spec_offset(self, v: Vec2) -> AABB {
        AABB { center: self.center.spec_add(v), half_size: self.half_size }
    }

    /// The penetration vector of `self` into `other`: present when the boxes
    /// overlap on both axes, and then made of the two per-axis penetrations.
    pub open spec fn spec_intersect(self, other: AABB) -> Option<Vec2> {
        match (
            axis_overlap(self.center.x, self.half_size.x, other.center.x, other.half_size.x),
            axis_overlap(self.center.y, self.half_size.y, other.center.y, other.half_size.y),
        ) {
            (Some(xo), Some(yo)) => Some(Vec2 { x: xo, y: yo }),
            _ => None,
        }
    }

    pub open spec fn spec_intersects(self, other: AABB) -> bool {
        self.spec_intersect(other) is Some
    }

    pub fn new(center: Vec2, half_size: Vec2) -> (b: AABB)
        ensures
            b.center == center,
            b.half_size == half_size,
            half_size.x.raw >= 0 && half_size.y.raw >= 0 ==> b.wf(),
    {
        AABB { center, half_size }
    }

    pub fn offset(&self, v: Vec2) -> (b: AABB)
        ensures
            b == self.spec_offset(v),
            self.wf() ==> b.wf(),
    {
        AABB { center: self.center.add(v), half_size: self.half_size }
    }

    pub fn bottom_left(&self) -> (p: Vec2)
        ensures
            p == self.center.spec_sub(self.half_size),
    {
        self.center.sub(self.half_size)
    }

    pub fn top_right(&self) -> (p: Vec2)
        ensures
            p == self.center.spec_add(self.half_size),
    {
        self.center.add(self.half_size)
    }

    pub fn intersect(&self, other: &AABB) -> (o: Option<Vec2>)
        ensures
            o == self.spec_intersect(*other),
    {
        let x_overlap = axis_overlap_exec(
            self.center.x,
            self.half_size.x,
            other.center.x,
            other.half_size.x,
        );
        let y_overlap = axis_overlap_exec(
            self.center.y,
            self.half_size.y,
            other.center.y,
            other.half_size.y,
        );
        match (x_overlap, y_overlap) {
            (Some(xo), Some(yo)) => Some(Vec2 { x: xo, y: yo }),
            _ => None,
        }
    }

    pub fn intersects(&self, other: &AABB) -> (hit: bool)
        ensures
            hit == self.spec_intersects(*other),
    {
        self.intersect(other).is_some()
    }
}

/// A penetration depth is never zero, and never the one value without a
/// negation.
pub proof fn lemma_axis_overlap_nonzero(ca: Fixed, ha: Fixed, cb: Fixed, hb: Fixed)
    ensures
        match axis_overlap(ca, ha, cb, hb) {
            Some(o) => o.raw != 0 && o.raw > i64::MIN && (o.raw < 0 <==> ca.raw <= cb.raw),
            None => true,
        },
{
}

/// Boxes whose centers lie, on either axis, further apart than their half
/// extents add up to do not intersect.
pub proof fn lemma_separated_boxes_miss(a: AABB, b: AABB)
    requires
        magnitude(b.center.x.raw - a.center.x.raw) > a.half_size.x.raw + b.half_size.x.raw
            || magnitude(b.center.y.raw - a.center.y.raw) > a.half_size.y.raw
            + b.half_size.y.raw,
    ensures
        a.spec_intersect(b) is None,
{
}

/// Whether two boxes intersect does not depend on which is asked first.
pub proof fn lemma_intersect_presence_symmetric(a: AABB, b: AABB)
    ensures
        a.spec_intersect(b) is Some <==> b.spec_intersect(a) is Some,
{
}

/// Along one axis, swapping the two boxes negates the penetration depth
/// where their centers differ. Where the centers coincide neither box is on
/// the upper side, and both orders give the same depth, below zero.
pub proof fn lemma_axis_overlap_antisymmetric(ca: Fixed, ha: Fixed, cb: Fixed, hb: Fixed)
    ensures
        match axis_overlap(ca, ha, cb, hb) {
            Some(o) => axis_overlap(cb, hb, ca, ha) == Some(
                if ca == cb {
                    o
                } else {
                    o.spec_neg()
                },
            ),
            None => axis_overlap(cb, hb, ca, ha) is None,
        },
{
}

/// Swapping two boxes negates their penetration vector, unless they
/// intersect with their centers level on an axis.
pub proof fn lemma_intersect_antisymmetric(a: AABB, b: AABB)
    requires
        a.spec_intersect(b) is Some ==> a.center.x != b.center.x && a.center.y != b.center.y,
    ensures
        match a.spec_intersect(b) {
            Some(v) => b.spec_intersect(a) == Some(v.spec_neg()),
            None => b.spec_intersect(a) is None,
        },
{
}

} // verus!
