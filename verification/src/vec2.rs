//! Two-dimensional fixed-point vectors.

use vstd::prelude::*;
use crate::fixed::{clamp, fx_add, fx_mul, mul_spec};

verus! {

/// A point or a displacement in the plane, in fixed-point coordinates.
#[derive(Clone, Copy, Debug, PartialEq, Eq, Structural)]
pub struct Vec2 {
    pub x: i32,
    pub y: i32,
}

impl Vec2 {
    /// The componentwise saturated vector of two integers.
    pub open spec fn clamped(x: int, y: int) -> Vec2 {
        Vec2 { x: clamp(x), y: clamp(y) }
    }

    /// The saturated sum.
    pub open spec fn plus_spec(self, o: Vec2) -> Vec2 {
        Vec2::clamped(self.x + o.x, self.y + o.y)
    }

    /// The saturated product with a fixed-point scalar.
    pub open spec fn scale_spec(self, k: i32) -> Vec2 {
        Vec2::clamped(mul_spec(self.x as int, k as int), mul_spec(self.y as int, k as int))
    }

    pub fn new(x: i32, y: i32) -> (r: Vec2)
        ensures
            r == (Vec2 { x, y }),
    {
        Vec2 { x, y }
    }

    pub fn zero() -> (r: Vec2)
        ensures
            r == (Vec2 { x: 0, y: 0 }),
    {
        Vec2 { x: 0, y: 0 }
    }

    /// Saturating sum.
    pub fn plus(self, o: Vec2) -> (r: Vec2)
        ensures
            r == self.plus_spec(o),
    {
        Vec2 { x: fx_add(self.x, o.x), y: fx_add(self.y, o.y) }
    }

    /// Saturating product with a fixed-point scalar.
    pub fn scale(self, k: i32) -> (r: Vec2)
        ensures
            r == self.scale_spec(k),
    {
        Vec2 { x: fx_mul(self.x, k), y: fx_mul(self.y, k) }
    }
}

} // verus!
