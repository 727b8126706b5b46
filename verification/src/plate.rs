//! Rectangular plates: regions that drag on the bodies inside them, drive
//! them along, or only add the field of their own charge.

use vstd::prelude::*;
use vstd::std_specs::cmp::PartialEqSpecImpl;
use crate::fixed::{clamp, saturate, trunc_div, ONE};
use crate::vec2::Vec2;

verus! {

/// The kind of a plate: what it does to the bodies inside it.
#[derive(Clone, Copy, Debug, PartialEq, Eq, Structural)]
pub enum PlateType {
    Normal,
    Battery,
    Resistor,
}

impl PlateType {
    /// The name of the kind.
    pub fn name(&self) -> (r: &'static str)
        ensures
            r@ == match *self {
                PlateType::Normal => "Normal"@,
                PlateType::Battery => "Battery"@,
                PlateType::Resistor => "Resistor"@,
            },
    {
        match self {
            PlateType::Normal => "Normal",
            PlateType::Battery => "Battery",
            PlateType::Resistor => "Resistor",
        }
    }
}

/// An axis-aligned rectangle from `min` to `max`.
#[derive(Clone, Copy, Debug)]
pub struct Plate {
    pub min: Vec2,
    pub max: Vec2,
    /// What a battery adds to the field inside it; zero for the other kinds.
    pub efield: Vec2,
    /// The resistance that bodies inside the plate take on.
    pub resist: i32,
    pub plate_type: PlateType,
}

/// Two plates are equal when they cover the same rectangle.
impl PartialEq for Plate {
    fn eq(&self, other: &Self) -> (r: bool) {
        self.min == other.min && self.max == other.max
    }
}

impl PartialEqSpecImpl for Plate {
    open spec fn obeys_eq_spec() -> bool {
        true
    }

    open spec fn eq_spec(&self, other: &Self) -> bool {
        self.min == other.min && self.max == other.max
    }
}

/// The offsets from a position to the edges of a plate: `a` up to the top
/// edge, `b` to the bottom edge, `c` to the left edge and `d` to the right edge.
#[derive(Clone, Copy, Debug, PartialEq, Eq, Structural)]
pub struct Offsets {
    pub a: i64,
    pub b: i64,
    pub c: i64,
    pub d: i64,
}

/// The integrals of the point-charge kernel along the edges of a plate, one
/// for each pairing of a vertical with a horizontal offset, as fixed-point
/// numbers; `None` stands for a value that is not finite.
#[derive(Clone, Copy, Debug, PartialEq, Eq, Structural)]
pub struct EdgeIntegrals {
    pub xac: Option<i64>,
    pub xad: Option<i64>,
    pub xbc: Option<i64>,
    pub xbd: Option<i64>,
    pub yca: Option<i64>,
    pub ycb: Option<i64>,
    pub yda: Option<i64>,
    pub ydb: Option<i64>,
}

impl EdgeIntegrals {
    /// Whether every integral is finite.
    pub open spec fn finite(self) -> bool {
        &&& self.xac is Some
        &&& self.xad is Some
        &&& self.xbc is Some
        &&& self.xbd is Some
        &&& self.yca is Some
        &&& self.ycb is Some
        &&& self.yda is Some
        &&& self.ydb is Some
    }

    /// The field that the integrals give: half the difference between the
    /// integrals along opposite edges, pointing outward; zero unless every
    /// integral is finite.
    pub open spec fn field_spec(self) -> Vec2 {
        if self.finite() {
            let xa = self.xad->0 - self.xac->0;
            let xb = self.xbd->0 - self.xbc->0;
            let yc = self.ycb->0 - self.yca->0;
            let yd = self.ydb->0 - self.yda->0;
            Vec2 { x: clamp(-trunc_div(xb - xa, 2)), y: clamp(-trunc_div(yd - yc, 2)) }
        } else {
            Vec2 { x: 0, y: 0 }
        }
    }

    /// The field that the integrals give.
    pub fn field(&self) -> (r: Vec2)
        ensures
            r == self.field_spec(),
    {
        match (self.xac, self.xad, self.xbc, self.xbd, self.yca, self.ycb, self.yda, self.ydb) {
            (
                Some(xac),
                Some(xad),
                Some(xbc),
                Some(xbd),
                Some(yca),
                Some(ycb),
                Some(yda),
                Some(ydb),
            ) => {
                let xa: i128 = xad as i128 - xac as i128;
                let xb: i128 = xbd as i128 - xbc as i128;
                let yc: i128 = ycb as i128 - yca as i128;
                let yd: i128 = ydb as i128 - yda as i128;
                Vec2 { x: saturate(-((xb - xa) / 2)), y: saturate(-((yd - yc) / 2)) }
            },
            _ => Vec2::zero(),
        }
    }
}

impl Plate {
    /// Whether the rectangle has an interior.
    pub open spec fn wf(self) -> bool {
        self.min.x < self.max.x && self.min.y < self.max.y
    }

    /// Whether `pos` lies strictly inside the rectangle.
    pub open spec fn inside(self, pos: Vec2) -> bool {
        self.min.x < pos.x < self.max.x && self.min.y < pos.y < self.max.y
    }

    /// Whether `pos` lies inside the rectangle or on its border.
    pub open spec fn covers(self, pos: Vec2) -> bool {
        self.min.x <= pos.x <= self.max.x && self.min.y <= pos.y <= self.max.y
    }

    /// The offsets from `pos` to the four edges.
    pub open spec fn offsets_spec(self, pos: Vec2) -> Offsets {
        Offsets {
            a: (self.max.y - pos.y) as i64,
            b: (self.min.y - pos.y) as i64,
            c: (self.min.x - pos.x) as i64,
            d: (self.max.x - pos.x) as i64,
        }
    }

    /// Whether `k` holds what `kernel` may return for the offsets from `pos`
    /// to the edges, each integral taken at its own pair of offsets.
    pub open spec fn sampled<F: Fn(i64, i64) -> Option<i64>>(
        self,
        pos: Vec2,
        kernel: &F,
        k: EdgeIntegrals,
    ) -> bool {
        let o = self.offsets_spec(pos);
        &&& call_ensures(*kernel, (o.a, o.c), k.xac)
        &&& call_ensures(*kernel, (o.a, o.d), k.xad)
        &&& call_ensures(*kernel, (o.b, o.c), k.xbc)
        &&& call_ensures(*kernel, (o.b, o.d), k.xbd)
        &&& call_ensures(*kernel, (o.c, o.a), k.yca)
        &&& call_ensures(*kernel, (o.c, o.b), k.ycb)
        &&& call_ensures(*kernel, (o.d, o.a), k.yda)
        &&& call_ensures(*kernel, (o.d, o.b), k.ydb)
    }

    /// Whether `field` is a field of the plate at `pos` that `kernel` allows.
    pub open spec fn field_from<F: Fn(i64, i64) -> Option<i64>>(
        self,
        pos: Vec2,
        kernel: &F,
        field: Vec2,
    ) -> bool {
        exists|k: EdgeIntegrals| #[trigger] self.sampled(pos, kernel, k) && field == k.field_spec()
    }

    /// A normal plate over the rectangle from `min` to `max`.
    pub fn new(min: Vec2, max: Vec2) -> (r: Plate)
        requires
            min.x < max.x,
            min.y < max.y,
        ensures
            r.min == min,
            r.max == max,
            r.efield == (Vec2 { x: 0, y: 0 }),
            r.resist == ONE,
            r.plate_type == PlateType::Normal,
            r.wf(),
    {
        Plate { min, max, efield: Vec2::zero(), resist: ONE, plate_type: PlateType::Normal }
    }

    /// Whether `pos` lies strictly inside the plate.
    pub fn is_in_plate(&self, pos: Vec2) -> (r: bool)
        ensures
            r == self.inside(pos),
    {
        pos.x > self.min.x && pos.x < self.max.x && pos.y > self.min.y && pos.y < self.max.y
    }

    /// Whether `pos` lies inside the plate or on its border.
    pub fn contains_point(&self, pos: Vec2) -> (r: bool)
        ensures
            r == self.covers(pos),
    {
        pos.x >= self.min.x && pos.x <= self.max.x && pos.y >= self.min.y && pos.y <= self.max.y
    }

    /// The offsets from `pos` to the four edges.
    pub fn offsets(&self, pos: Vec2) -> (r: Offsets)
        ensures
            r == self.offsets_spec(pos),
    {
        Offsets {
            a: self.max.y as i64 - pos.y as i64,
            b: self.min.y as i64 - pos.y as i64,
            c: self.min.x as i64 - pos.x as i64,
            d: self.max.x as i64 - pos.x as i64,
        }
    }

    /// The field at `pos` of a plate that is charged evenly. For offsets `u`
    /// and `v` the caller's `kernel` gives the fixed-point value of
    /// `u / 2 * ln(u * u + v * v) + v * atan(u / v)`, or `None` where that
    /// is not finite; it is asked once for each pairing of a vertical with a
    /// horizontal offset, in either order.
    pub fn efield_at<F: Fn(i64, i64) -> Option<i64>>(&self, pos: Vec2, kernel: &F) -> (r: Vec2)
        requires
            forall|u: i64, v: i64| call_requires(*kernel, (u, v)),
        ensures
            self.field_from(pos, kernel, r),
    {
        let o = self.offsets(pos);
        let k = EdgeIntegrals {
            xac: kernel(o.a, o.c),
            xad: kernel(o.a, o.d),
            xbc: kernel(o.b, o.c),
            xbd: kernel(o.b, o.d),
            yca: kernel(o.c, o.a),
            ycb: kernel(o.c, o.b),
            yda: kernel(o.d, o.a),
            ydb: kernel(o.d, o.b),
        };
        assert(self.sampled(pos, kernel, k));
        k.field()
    }

    /// Makes the plate a normal one: no drag, no field of its own.
    pub fn make_normal(&mut self)
        ensures
            *final(self) == (Plate {
                plate_type: PlateType::Normal,
                resist: ONE,
                efield: Vec2 { x: 0, y: 0 },
                ..*old(self)
            }),
    {
        self.plate_type = PlateType::Normal;
        self.resist = ONE;
        self.efield = Vec2::new(0, 0);
    }

    /// Makes the plate a battery whose field of strength `efield` points
    /// along its longer side, and along the y axis if the plate is square.
    pub fn make_battery(&mut self, efield: i32)
        ensures
            *final(self) == (Plate {
                plate_type: PlateType::Battery,
                resist: ONE,
                efield: if old(self).max.x - old(self).min.x > old(self).max.y - old(self).min.y {
                    Vec2 { x: efield, y: 0 }
                } else {
                    Vec2 { x: 0, y: efield }
                },
                ..*old(self)
            }),
    {
        self.plate_type = PlateType::Battery;
        self.resist = ONE;
        let x = self.max.x as i64 - self.min.x as i64;
        let y = self.max.y as i64 - self.min.y as i64;
        if x > y {
            self.efield = Vec2::new(efield, 0);
        } else {
            self.efield = Vec2::new(0, efield);
        }
    }

    /// Makes the plate a resistor; its field stays what it was.
    pub fn make_resistor(&mut self, resist: i32)
        ensures
            *final(self) == (Plate { plate_type: PlateType::Resistor, resist, ..*old(self) }),
    {
        self.plate_type = PlateType::Resistor;
        self.resist = resist;
    }
}

} // verus!
