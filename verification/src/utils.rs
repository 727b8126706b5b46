//! Bodies and plates to start a simulation with.

use vstd::prelude::*;
use crate::body::Body;
use crate::fixed::{clamp, from_int, fx_lerp, lemma_lerp_within, lerp_spec, ONE};
use crate::plate::Plate;
use crate::vec2::Vec2;

verus! {

/// Nine tenths.
pub const NINE_TENTHS: i32 = 58982;

/// Calls `fastrand::seed`, which starts the generator of this thread over
/// from `seed`. Nothing is claimed of it.
#[verifier::external_body]
fn seed_generator(seed: u64) {
    fastrand::seed(seed)
}

/// Calls `fastrand::i32` on the range from 0 up to `bound`, which gives a
/// number of that range; for an empty range it would panic.
#[verifier::external_body]
fn random_below(bound: i32) -> (r: i32)
    requires
        bound > 0,
    ensures
        0 <= r < bound,
{
    fastrand::i32(0..bound)
}

/// Whether `v` lies some fraction of the way from `lo` to `hi`, the
/// fraction at least zero and less than one.
pub open spec fn partway(lo: i32, hi: i32, v: i32) -> bool {
    exists|t: int| 0 <= t < ONE && v == clamp(#[trigger] lerp_spec(lo as int, hi as int, t))
}

/// A random number the fraction `t` of the way from `min` to `max`, `t`
/// drawn evenly from zero up to one.
pub fn random_in_range(min: i32, max: i32) -> (r: i32)
    ensures
        partway(min, max, r),
        min < max ==> min <= r < max,
{
    let t = random_below(ONE);
    let r = fx_lerp(min, max, t);
    proof {
        assert(r == clamp(lerp_spec(min as int, max as int, t as int)));
        if min < max {
            lemma_lerp_within(min as int, max as int, t as int);
        }
    }
    r
}

/// `n` bodies of radius one, each at rest at a random place of the
/// rectangle from `min` to `max`. The generator is started over first, so
/// the same bodies come every time. The scale `qe` of the bodies' charge
/// has no part in where they are put.
#[allow(unused_variables)]
pub fn uniform_rect(n: usize, min: Vec2, max: Vec2, qe: i32) -> (bodies: Vec<Body>)
    ensures
        bodies@.len() == n,
        forall|i: int|
            0 <= i < n ==> {
                let b = #[trigger] bodies@[i];
                &&& partway(min.x, max.x, b.pos.x)
                &&& partway(min.y, max.y, b.pos.y)
                &&& b.efield == (Vec2 { x: 0, y: 0 })
                &&& b.radius == ONE
                &&& b.resist == ONE
            },
{
    seed_generator(0);
    let mut bodies: Vec<Body> = Vec::new();
    let mut i: usize = 0;
    while i < n
        invariant
            i <= n,
            bodies@.len() == i,
            forall|k: int|
                0 <= k < i ==> {
                    let b = #[trigger] bodies@[k];
                    &&& partway(min.x, max.x, b.pos.x)
                    &&& partway(min.y, max.y, b.pos.y)
                    &&& b.efield == (Vec2 { x: 0, y: 0 })
                    &&& b.radius == ONE
                    &&& b.resist == ONE
                },
        decreases n - i,
    {
        let x = random_in_range(min.x, max.x);
        let y = random_in_range(min.y, max.y);
        bodies.push(Body::new(Vec2::new(x, y), ONE));
        i += 1;
    }
    bodies
}

/// Two bodies of radius one, five to the right and five to the left of
/// the origin.
pub fn two_body() -> (bodies: Vec<Body>)
    ensures
        bodies@ == seq![
            Body {
                pos: Vec2 { x: (5 * ONE) as i32, y: 0 },
                efield: Vec2 { x: 0, y: 0 },
                radius: ONE,
                resist: ONE,
            },
            Body {
                pos: Vec2 { x: (-5 * ONE) as i32, y: 0 },
                efield: Vec2 { x: 0, y: 0 },
                radius: ONE,
                resist: ONE,
            },
        ],
{
    let mut bodies: Vec<Body> = Vec::with_capacity(2);
    bodies.push(Body::new(Vec2::new(from_int(5), 0), ONE));
    bodies.push(Body::new(Vec2::new(from_int(-5), 0), ONE));
    assert(bodies@ =~= seq![
        Body {
            pos: Vec2 { x: (5 * ONE) as i32, y: 0 },
            efield: Vec2 { x: 0, y: 0 },
            radius: ONE,
            resist: ONE,
        },
        Body {
            pos: Vec2 { x: (-5 * ONE) as i32, y: 0 },
            efield: Vec2 { x: 0, y: 0 },
            radius: ONE,
            resist: ONE,
        },
    ]);
    bodies
}

/// Three bodies of radius one, five to the right, to the left and above
/// the origin, on a normal plate that reaches forty to either side and ten
/// up and down.
pub fn three_body() -> (r: (Vec<Body>, Vec<Plate>))
    ensures
        r.0@.len() == 3,
        r.0@[0].pos == (Vec2 { x: (5 * ONE) as i32, y: 0 }),
        r.0@[1].pos == (Vec2 { x: (-5 * ONE) as i32, y: 0 }),
        r.0@[2].pos == (Vec2 { x: 0, y: (5 * ONE) as i32 }),
        forall|i: int|
            0 <= i < 3 ==> {
                let b = #[trigger] r.0@[i];
                b.efield == (Vec2 { x: 0, y: 0 }) && b.radius == ONE && b.resist == ONE
            },
        r.1@.len() == 1,
        r.1@[0].min == (Vec2 { x: (-40 * ONE) as i32, y: (-10 * ONE) as i32 }),
        r.1@[0].max == (Vec2 { x: (40 * ONE) as i32, y: (10 * ONE) as i32 }),
        r.1@[0].efield == (Vec2 { x: 0, y: 0 }),
        r.1@[0].resist == ONE,
        r.1@[0].plate_type == crate::plate::PlateType::Normal,
{
    let mut bodies: Vec<Body> = Vec::with_capacity(10);
    let mut plates: Vec<Plate> = Vec::with_capacity(10);
    bodies.push(Body::new(Vec2::new(from_int(5), 0), ONE));
    bodies.push(Body::new(Vec2::new(from_int(-5), 0), ONE));
    bodies.push(Body::new(Vec2::new(0, from_int(5)), ONE));
    let min = Vec2::new(from_int(-40), from_int(-10));
    let max = Vec2::new(from_int(40), from_int(10));
    plates.push(Plate::new(min, max));
    (bodies, plates)
}

/// A normal plate from `min` to `max` with `n` bodies at random places of
/// a rectangle nine tenths as far from the origin on every side.
pub fn large_plate(n: usize, min: Vec2, max: Vec2) -> (r: (Vec<Body>, Vec<Plate>))
    requires
        min.x < max.x,
        min.y < max.y,
    ensures
        r.0@.len() == n,
        forall|i: int|
            0 <= i < n ==> {
                let b = #[trigger] r.0@[i];
                &&& partway(min.scale_spec(NINE_TENTHS).x, max.scale_spec(NINE_TENTHS).x, b.pos.x)
                &&& partway(min.scale_spec(NINE_TENTHS).y, max.scale_spec(NINE_TENTHS).y, b.pos.y)
                &&& b.efield == (Vec2 { x: 0, y: 0 })
                &&& b.radius == ONE
                &&& b.resist == ONE
            },
        r.1@.len() == 1,
        r.1@[0].min == min,
        r.1@[0].max == max,
        r.1@[0].efield == (Vec2 { x: 0, y: 0 }),
        r.1@[0].resist == ONE,
        r.1@[0].plate_type == crate::plate::PlateType::Normal,
{
    let bodies = uniform_rect(n, min.scale(NINE_TENTHS), max.scale(NINE_TENTHS), -ONE);
    let mut plates: Vec<Plate> = Vec::with_capacity(1);
    plates.push(Plate::new(min, max));
    (bodies, plates)
}

} // verus!
