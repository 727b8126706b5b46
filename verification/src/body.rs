//! Point charges.

use vstd::prelude::*;
use crate::fixed::ONE;
use crate::vec2::Vec2;

verus! {

/// A point charge: where it is, the field it feels, and how freely it moves.
#[derive(Clone, Copy, Debug, PartialEq, Eq, Structural)]
pub struct Body {
    pub pos: Vec2,
    /// The field at `pos`, recomputed on every step.
    pub efield: Vec2,
    /// For display only.
    pub radius: i32,
    /// The fraction of the field's pull that becomes motion: `ONE` moves freely.
    pub resist: i32,
}

impl Body {
    /// Where the body would be after `dt` if nothing were in its way.
    pub open spec fn new_pos_spec(self, dt: i32) -> Vec2 {
        self.pos.plus_spec(self.efield.scale_spec(dt).scale_spec(self.resist))
    }

    /// A body at rest at `pos` that moves freely.
    pub fn new(pos: Vec2, radius: i32) -> (r: Body)
        ensures
            r == (Body { pos, efield: Vec2 { x: 0, y: 0 }, radius, resist: ONE }),
    {
        Body { pos, efield: Vec2::zero(), radius, resist: ONE }
    }

    /// The position after `dt`: `pos + efield * dt * resist`, saturating.
    pub fn get_new_pos(&self, dt: i32) -> (r: Vec2)
        ensures
            r == self.new_pos_spec(dt),
    {
        self.pos.plus(self.efield.scale(dt).scale(self.resist))
    }
}

} // verus!
