//! One time step: rebuild the tree, sum the fields on every body, and move
//! the bodies without letting them slip out of a plate through a corner.

use vstd::prelude::*;
use crate::body::Body;
use crate::fixed::{abs_spec, clamp, fx_add, fx_mul, mul_spec, saturate, trunc_div, ONE};
use crate::plate::Plate;
use crate::quadtree::sums::lemma_sum_nonneg;
use crate::quadtree::{bounding_box, Quad, Quadtree, Weight};
use crate::vec2::Vec2;

verus! {

pub struct Simulation {
    /// The length of a time step.
    pub dt: i32,
    /// The number of steps taken, starting over after the largest `usize`.
    pub frame: usize,
    pub bodies: Vec<Body>,
    pub plates: Vec<Plate>,
    pub quadtree: Quadtree,
    /// The scale of the field that the bodies cause.
    pub qe: i32,
    /// The scale of the field that the charge of the plates causes.
    pub qp: i32,
}

/// How much of a battery's field is felt at `v` between the edges `lo` and
/// `hi`: all of it midway, falling off evenly to nothing at either edge.
pub open spec fn falloff_spec(lo: i32, hi: i32, v: i32) -> i32 {
    clamp(ONE - trunc_div(abs_spec(2 * v - lo - hi) * ONE, hi - lo))
}

/// How much of a battery's field is felt at `v` between the edges.
pub fn falloff(lo: i32, hi: i32, v: i32) -> (r: i32)
    requires
        lo < hi,
    ensures
        r == falloff_spec(lo, hi, v),
{
    let twice: i128 = 2 * (v as i128) - lo as i128 - hi as i128;
    let off: i128 = if twice >= 0 { twice } else { -twice };
    let width: i128 = hi as i128 - lo as i128;
    saturate(65536 - (off * 65536) / width)
}

/// The body after `plate`, whose charge causes `field` at the body's
/// position, has acted on it: the field is added at the scale `qp`; a body
/// strictly inside also feels the plate's own field, less toward the edges
/// on each axis; and a body inside or on the border takes on the plate's
/// resistance.
pub open spec fn plate_step(body: Body, plate: Plate, field: Vec2, qp: i32) -> Body {
    let e = body.efield.plus_spec(field.scale_spec(qp));
    Body {
        efield: if plate.inside(body.pos) {
            Vec2 {
                x: clamp(
                    e.x + clamp(
                        mul_spec(
                            plate.efield.x as int,
                            falloff_spec(plate.min.x, plate.max.x, body.pos.x) as int,
                        ),
                    ),
                ),
                y: clamp(
                    e.y + clamp(
                        mul_spec(
                            plate.efield.y as int,
                            falloff_spec(plate.min.y, plate.max.y, body.pos.y) as int,
                        ),
                    ),
                ),
            }
        } else {
            e
        },
        resist: if plate.covers(body.pos) {
            plate.resist
        } else {
            body.resist
        },
        ..body
    }
}

/// The body after the first `n` plates have acted on it in order.
pub open spec fn after_plates(
    body: Body,
    plates: Seq<Plate>,
    fields: Seq<Vec2>,
    qp: i32,
    n: int,
) -> Body
    decreases n,
{
    if n <= 0 {
        body
    } else {
        plate_step(after_plates(body, plates, fields, qp, n - 1), plates[n - 1], fields[n - 1], qp)
    }
}

/// Lets `plate` act on `body`.
pub fn apply_plate(body: &mut Body, plate: &Plate, field: Vec2, qp: i32)
    ensures
        *final(body) == plate_step(*old(body), *plate, field, qp),
{
    body.efield = body.efield.plus(field.scale(qp));
    if plate.is_in_plate(body.pos) {
        let strength_x = falloff(plate.min.x, plate.max.x, body.pos.x);
        let strength_y = falloff(plate.min.y, plate.max.y, body.pos.y);
        body.efield.x = fx_add(body.efield.x, fx_mul(plate.efield.x, strength_x));
        body.efield.y = fx_add(body.efield.y, fx_mul(plate.efield.y, strength_y));
    }
    if plate.contains_point(body.pos) {
        body.resist = plate.resist;
    }
}

/// Whether `pos` lies strictly inside one of the plates.
pub open spec fn on_plate_spec(pos: Vec2, plates: Seq<Plate>) -> bool {
    exists|j: int| 0 <= j < plates.len() && (#[trigger] plates[j]).inside(pos)
}

/// Whether `pos` lies strictly inside one of the plates.
pub fn on_plate(pos: Vec2, plates: &Vec<Plate>) -> (r: bool)
    ensures
        r == on_plate_spec(pos, plates@),
{
    let mut j: usize = 0;
    while j < plates.len()
        invariant
            j <= plates@.len(),
            forall|k: int| 0 <= k < j ==> !(#[trigger] plates@[k]).inside(pos),
        decreases plates@.len() - j,
    {
        if plates[j].is_in_plate(pos) {
            return true;
        }
        j += 1;
    }
    false
}

/// Where the body goes in a step of `dt`. It moves to where its field takes
/// it if that lies inside a plate; else along y alone, or else along x alone,
/// if that lies inside a plate; else it moves freely if it was inside no
/// plate before, and stays where it is if it was.
pub open spec fn clip_spec(body: Body, plates: Seq<Plate>, dt: i32) -> Vec2 {
    let old_pos = body.pos;
    let new_pos = body.new_pos_spec(dt);
    if on_plate_spec(new_pos, plates) {
        new_pos
    } else if on_plate_spec(Vec2 { x: old_pos.x, y: new_pos.y }, plates) {
        Vec2 { x: old_pos.x, y: new_pos.y }
    } else if on_plate_spec(Vec2 { x: new_pos.x, y: old_pos.y }, plates) {
        Vec2 { x: new_pos.x, y: old_pos.y }
    } else if !on_plate_spec(old_pos, plates) {
        new_pos
    } else {
        old_pos
    }
}

/// The position of `body` after a step of `dt` among the plates.
pub fn get_new_pos_clip(body: &Body, plates: &Vec<Plate>, dt: i32) -> (r: Vec2)
    ensures
        r == clip_spec(*body, plates@, dt),
{
    let old_pos = body.pos;
    let new_pos = body.get_new_pos(dt);
    if on_plate(new_pos, plates) {
        new_pos
    } else if on_plate(Vec2::new(old_pos.x, new_pos.y), plates) {
        Vec2::new(old_pos.x, new_pos.y)
    } else if on_plate(Vec2::new(new_pos.x, old_pos.y), plates) {
        Vec2::new(new_pos.x, old_pos.y)
    } else if !on_plate(old_pos, plates) {
        new_pos
    } else {
        old_pos
    }
}

/// A body inside a plate whose step would take it out of every plate, also
/// when it is taken along one axis alone, stays where it is.
pub proof fn lemma_corner_exit_rejected(body: Body, plates: Seq<Plate>, dt: i32)
    requires
        on_plate_spec(body.pos, plates),
        !on_plate_spec(body.new_pos_spec(dt), plates),
        !on_plate_spec(Vec2 { x: body.pos.x, y: body.new_pos_spec(dt).y }, plates),
        !on_plate_spec(Vec2 { x: body.new_pos_spec(dt).x, y: body.pos.y }, plates),
    ensures
        clip_spec(body, plates, dt) == body.pos,
{
}

/// A body that is inside no plate, and whose step takes it into none along
/// either axis, moves freely.
pub proof fn lemma_free_motion(body: Body, plates: Seq<Plate>, dt: i32)
    requires
        !on_plate_spec(body.pos, plates),
        !on_plate_spec(Vec2 { x: body.pos.x, y: body.new_pos_spec(dt).y }, plates),
        !on_plate_spec(Vec2 { x: body.new_pos_spec(dt).x, y: body.pos.y }, plates),
    ensures
        clip_spec(body, plates, dt) == body.new_pos_spec(dt),
{
}

/// Whether one of the bodies is at `p`.
pub open spec fn at_a_body(bodies: Seq<Body>, p: Vec2) -> bool {
    exists|k: int| 0 <= k < bodies.len() && (#[trigger] bodies[k]).pos == p
}

/// The number of nodes that the tree evaluates for the fields at the first
/// `n` bodies.
pub open spec fn visits_total(tree: Quadtree, bodies: Seq<Body>, n: int) -> nat
    decreases n,
{
    if n <= 0 {
        0
    } else {
        visits_total(tree, bodies, n - 1) + tree.field_walk(bodies[n - 1].pos).visits
    }
}

impl Simulation {
    /// Whether `fields` holds one field for every body and plate.
    pub open spec fn fits(self, fields: Seq<Vec<Vec2>>) -> bool {
        &&& fields.len() == self.bodies@.len()
        &&& forall|i: int| 0 <= i < fields.len() ==> (#[trigger] fields[i])@.len() == self.plates@.len()
    }

    /// Whether `fields` holds, for every body and plate, a field of the
    /// plate at the body's position that `kernel` allows.
    pub open spec fn sampled<F: Fn(i64, i64) -> Option<i64>>(
        self,
        kernel: &F,
        fields: Seq<Vec<Vec2>>,
    ) -> bool {
        &&& self.fits(fields)
        &&& forall|i: int, j: int|
            0 <= i < self.bodies@.len() && 0 <= j < self.plates@.len() ==> (
            #[trigger] self.plates@[j]).field_from(self.bodies@[i].pos, kernel, (#[trigger] fields[i])@[j])
    }

    /// What `attract` makes of `pre`, given the fields of the plates.
    /// Without bodies nothing changes. Else the tree is built anew over the
    /// bodies' bounding box with a unit of charge for each body, all of it
    /// at positions of bodies; each body's field is the tree's at its
    /// position at the scale `qe`, and on top of that what the plates add in
    /// order.
    pub open spec fn attracted(pre: Simulation, fields: Seq<Vec<Vec2>>, post: Simulation) -> bool {
        if pre.bodies@.len() == 0 {
            post == pre
        } else {
            &&& post.dt == pre.dt
            &&& post.frame == pre.frame
            &&& post.qe == pre.qe
            &&& post.qp == pre.qp
            &&& post.plates@ == pre.plates@
            &&& post.quadtree.t_sq == pre.quadtree.t_sq
            &&& post.quadtree.e_sq == pre.quadtree.e_sq
            &&& post.quadtree.wf()
            &&& post.quadtree.aggregated()
            &&& exists|lo: Vec2, hi: Vec2| #[trigger]
                bounding_box(pre.bodies@, lo, hi) && post.quadtree.nodes@[0].quad
                    == Quad::spanning(lo, hi)
            &&& post.quadtree.total_charge() == pre.bodies@.len()
            &&& forall|p: Vec2| #[trigger] post.quadtree.charge_at(p) > 0 ==> at_a_body(pre.bodies@, p)
            &&& post.quadtree.nodes@[0].charge == pre.bodies@.len()
            &&& post.quadtree.calcs == if visits_total(
                post.quadtree,
                pre.bodies@,
                pre.bodies@.len() as int,
            ) <= usize::MAX {
                visits_total(post.quadtree, pre.bodies@, pre.bodies@.len() as int) as usize
            } else {
                usize::MAX
            }
            &&& post.bodies@.len() == pre.bodies@.len()
            &&& forall|i: int|
                0 <= i < pre.bodies@.len() ==> #[trigger] post.bodies@[i] == after_plates(
                    Body {
                        efield: post.quadtree.field_walk(pre.bodies@[i].pos).field.scale_spec(
                            pre.qe,
                        ),
                        ..pre.bodies@[i]
                    },
                    pre.plates@,
                    fields[i]@,
                    pre.qp,
                    pre.plates@.len() as int,
                )
        }
    }

    /// What `iterate` makes of `pre`: every body moves to its clipped
    /// position; nothing else changes.
    pub open spec fn iterated(pre: Simulation, post: Simulation) -> bool {
        &&& post.dt == pre.dt
        &&& post.frame == pre.frame
        &&& post.qe == pre.qe
        &&& post.qp == pre.qp
        &&& post.plates@ == pre.plates@
        &&& post.quadtree == pre.quadtree
        &&& post.bodies@.len() == pre.bodies@.len()
        &&& forall|i: int|
            0 <= i < pre.bodies@.len() ==> #[trigger] post.bodies@[i] == (Body {
                pos: clip_spec(pre.bodies@[i], pre.plates@, pre.dt),
                ..pre.bodies@[i]
            })
    }

    /// What `refresh_objects` makes of `pre`: pending bodies and plates
    /// take the place of those of `pre`, which are handed back; nothing else
    /// changes.
    pub open spec fn refreshed(
        pre: Simulation,
        pending: Option<(Vec<Body>, Vec<Plate>)>,
        post: Simulation,
        back: Option<(Vec<Body>, Vec<Plate>)>,
    ) -> bool {
        &&& match pending {
            Some((bodies, plates)) => {
                &&& post.bodies == bodies
                &&& post.plates == plates
                &&& back == Some((pre.bodies, pre.plates))
            },
            None => post.bodies == pre.bodies && post.plates == pre.plates && back is None,
        }
        &&& post.dt == pre.dt
        &&& post.frame == pre.frame
        &&& post.qe == pre.qe
        &&& post.qp == pre.qp
        &&& post.quadtree == pre.quadtree
    }

    /// The steps in between of one `step` from `pre` to `post`: the bodies
    /// and plates are refreshed, the plates' fields are taken from `kernel`,
    /// the fields on the bodies are summed, the bodies are moved, and the
    /// frame is counted.
    pub open spec fn stepped<F: Fn(i64, i64) -> Option<i64>>(
        pre: Simulation,
        pending: Option<(Vec<Body>, Vec<Plate>)>,
        kernel: &F,
        fresh: Simulation,
        fields: Seq<Vec<Vec2>>,
        pulled: Simulation,
        moved: Simulation,
        post: Simulation,
        back: Option<(Vec<Body>, Vec<Plate>)>,
    ) -> bool {
        &&& Self::refreshed(pre, pending, fresh, back)
        &&& fresh.sampled(kernel, fields)
        &&& Self::attracted(fresh, fields, pulled)
        &&& Self::iterated(pulled, moved)
        &&& post == (Simulation {
            frame: if moved.frame == usize::MAX {
                0
            } else {
                (moved.frame + 1) as usize
            },
            ..moved
        })
    }

    /// A simulation without bodies or plates: a threshold of three quarters,
    /// a softening length of one, a time step of one, the bodies' field
    /// turned around and the plates' as it is.
    pub fn new() -> (r: Simulation)
        ensures
            r.dt == ONE,
            r.frame == 0,
            r.bodies@.len() == 0,
            r.plates@.len() == 0,
            r.quadtree.t_sq == 49152 * 49152,
            r.quadtree.e_sq == ONE * ONE,
            r.quadtree.nodes@.len() == 0,
            r.quadtree.parents@.len() == 0,
            r.quadtree.calcs == 0,
            r.qe == -ONE,
            r.qp == ONE,
    {
        let theta: i32 = 49152;
        let epsilon: i32 = 65536;
        let quadtree = Quadtree::new(theta, epsilon);
        Simulation {
            dt: 65536,
            frame: 0,
            bodies: Vec::new(),
            plates: Vec::new(),
            quadtree,
            qe: -65536,
            qp: 65536,
        }
    }

    /// Takes over the bodies and plates that an editor has left, if any, and
    /// hands back the ones they replace.
    pub fn refresh_objects(&mut self, pending: Option<(Vec<Body>, Vec<Plate>)>) -> (r: Option<
        (Vec<Body>, Vec<Plate>),
    >)
        ensures
            Self::refreshed(*old(self), pending, *final(self), r),
    {
        match pending {
            Some((mut bodies, mut plates)) => {
                std::mem::swap(&mut self.bodies, &mut bodies);
                std::mem::swap(&mut self.plates, &mut plates);
                Some((bodies, plates))
            },
            None => None,
        }
    }

    /// The fields of every plate at every body, as `kernel` gives them.
    pub fn plate_fields<F: Fn(i64, i64) -> Option<i64>>(&self, kernel: &F) -> (r: Vec<Vec<Vec2>>)
        requires
            forall|u: i64, v: i64| call_requires(*kernel, (u, v)),
        ensures
            self.sampled(kernel, r@),
    {
        let mut fields: Vec<Vec<Vec2>> = Vec::new();
        let mut i: usize = 0;
        while i < self.bodies.len()
            invariant
                forall|u: i64, v: i64| call_requires(*kernel, (u, v)),
                i <= self.bodies@.len(),
                fields@.len() == i,
                forall|k: int| 0 <= k < i ==> (#[trigger] fields@[k])@.len() == self.plates@.len(),
                forall|k: int, j: int|
                    0 <= k < i && 0 <= j < self.plates@.len() ==> (#[trigger] self.plates@[j]).field_from(
                        self.bodies@[k].pos,
                        kernel,
                        (#[trigger] fields@[k])@[j],
                    ),
            decreases self.bodies@.len() - i,
        {
            let pos = self.bodies[i].pos;
            let mut row: Vec<Vec2> = Vec::new();
            let mut j: usize = 0;
            while j < self.plates.len()
                invariant
                    forall|u: i64, v: i64| call_requires(*kernel, (u, v)),
                    j <= self.plates@.len(),
                    row@.len() == j,
                    forall|m: int|
                        0 <= m < j ==> (#[trigger] self.plates@[m]).field_from(pos, kernel, row@[m]),
                decreases self.plates@.len() - j,
            {
                row.push(self.plates[j].efield_at(pos, kernel));
                j += 1;
            }
            fields.push(row);
            i += 1;
        }
        fields
    }

    /// Builds the tree over the bodies and sums the fields on each of them:
    /// the field of the other bodies as the tree gives it, and the fields of
    /// the plates, of which `fields` holds one for every body and plate.
    /// Without bodies nothing is done.
    pub fn attract(&mut self, fields: &Vec<Vec<Vec2>>)
        requires
            old(self).fits(fields@),
        ensures
            Self::attracted(*old(self), fields@, *final(self)),
    {
        let ghost start = *self;
        let n = self.bodies.len();
        if n == 0 {
            return ;
        }
        let quad = Quad::new_containing(self.bodies.as_slice());
        self.quadtree.clear(quad);
        let mut i: usize = 0;
        while i < n
            invariant
                i <= n,
                n == self.bodies@.len(),
                self.bodies@ == start.bodies@,
                self.plates@ == start.plates@,
                self.dt == start.dt,
                self.frame == start.frame,
                self.qe == start.qe,
                self.qp == start.qp,
                self.quadtree.t_sq == start.quadtree.t_sq,
                self.quadtree.e_sq == start.quadtree.e_sq,
                self.quadtree.calcs == 0,
                self.quadtree.wf(),
                self.quadtree.total_charge() == i,
                self.quadtree.nodes@[0].quad == quad,
                forall|p: Vec2| #[trigger]
                    self.quadtree.charge_at(p) > 0 ==> at_a_body(start.bodies@, p),
            decreases n - i,
        {
            let ghost before = self.quadtree;
            let pos = self.bodies[i].pos;
            self.quadtree.insert(pos, 1);
            proof {
                let land = before.landing(pos);
                let leaf = before.descend(0, pos);
                before.lemma_descend_leaf(0, pos);
                lemma_sum_nonneg(
                    before.nodes@,
                    Weight::At(land),
                    before.nodes@.len() as int,
                    before.nodes@.len() as int,
                    leaf,
                );
                assert(start.bodies@[i as int].pos == pos);
                assert(at_a_body(start.bodies@, land)) by {
                    if land != pos {
                        assert(before.nodes@[leaf].charge * 1 > 0);
                        assert(before.charge_at(land) > 0);
                    }
                }
                assert forall|p: Vec2| #[trigger]
                    self.quadtree.charge_at(p) > 0 implies at_a_body(start.bodies@, p) by {
                    assert(self.quadtree.leaf_sum(Weight::At(p)) == before.leaf_sum(Weight::At(p))
                        + 1 * Weight::At(p).of(land));
                    if p != land {
                        assert(before.charge_at(p) > 0);
                    }
                }
            }
            i += 1;
        }
        let ghost filled = self.quadtree;
        self.quadtree.propagate();
        let ghost tree = self.quadtree;
        assert forall|p: Vec2| #[trigger] tree.charge_at(p) > 0 implies at_a_body(
            start.bodies@,
            p,
        ) by {
            assert(tree.leaf_sum(Weight::At(p)) == filled.leaf_sum(Weight::At(p)));
            assert(filled.charge_at(p) > 0);
        }
        i = 0;
        while i < n
            invariant
                i <= n,
                n == start.bodies@.len(),
                self.bodies@.len() == n,
                self.plates@ == start.plates@,
                self.dt == start.dt,
                self.frame == start.frame,
                self.qe == start.qe,
                self.qp == start.qp,
                tree.shape(),
                forall|p: Vec2| #[trigger] tree.charge_at(p) > 0 ==> at_a_body(start.bodies@, p),
                self.quadtree.nodes@ == tree.nodes@,
                self.quadtree.parents@ == tree.parents@,
                self.quadtree.t_sq == tree.t_sq,
                self.quadtree.e_sq == tree.e_sq,
                self.quadtree.calcs == if visits_total(tree, start.bodies@, i as int)
                    <= usize::MAX {
                    visits_total(tree, start.bodies@, i as int) as usize
                } else {
                    usize::MAX
                },
                forall|k: int|
                    0 <= k < i ==> #[trigger] self.bodies@[k] == (Body {
                        efield: tree.field_walk(start.bodies@[k].pos).field.scale_spec(start.qe),
                        ..start.bodies@[k]
                    }),
                forall|k: int| i <= k < n ==> #[trigger] self.bodies@[k] == start.bodies@[k],
            decreases n - i,
        {
            let mut body = self.bodies[i];
            proof {
                tree.lemma_shape_frame(self.quadtree);
                tree.lemma_walk_frame(
                    self.quadtree,
                    0,
                    body.pos,
                    crate::quadtree::Tally { field: Vec2 { x: 0, y: 0 }, visits: 0 },
                );
            }
            body.efield = self.quadtree.efield(body.pos).scale(self.qe);
            self.bodies.set(i, body);
            i += 1;
        }
        let ghost mid = self.bodies@;
        i = 0;
        while i < n
            invariant
                i <= n,
                n == start.bodies@.len(),
                self.bodies@.len() == n,
                mid.len() == n,
                start.fits(fields@),
                forall|p: Vec2| #[trigger] tree.charge_at(p) > 0 ==> at_a_body(start.bodies@, p),
                self.plates@ == start.plates@,
                self.dt == start.dt,
                self.frame == start.frame,
                self.qe == start.qe,
                self.qp == start.qp,
                self.quadtree.nodes@ == tree.nodes@,
                self.quadtree.parents@ == tree.parents@,
                self.quadtree.t_sq == tree.t_sq,
                self.quadtree.e_sq == tree.e_sq,
                self.quadtree.calcs == if visits_total(tree, start.bodies@, n as int)
                    <= usize::MAX {
                    visits_total(tree, start.bodies@, n as int) as usize
                } else {
                    usize::MAX
                },
                forall|k: int|
                    0 <= k < i ==> #[trigger] self.bodies@[k] == after_plates(
                        mid[k],
                        start.plates@,
                        fields@[k]@,
                        start.qp,
                        start.plates@.len() as int,
                    ),
                forall|k: int| i <= k < n ==> #[trigger] self.bodies@[k] == mid[k],
            decreases n - i,
        {
            let mut body = self.bodies[i];
            let ghost first = body;
            let mut j: usize = 0;
            while j < self.plates.len()
                invariant
                    i < n,
                    n == start.bodies@.len(),
                    start.fits(fields@),
                    self.plates@ == start.plates@,
                    self.qp == start.qp,
                    j <= self.plates@.len(),
                    body == after_plates(first, start.plates@, fields@[i as int]@, start.qp, j as int),
                decreases self.plates@.len() - j,
            {
                apply_plate(&mut body, &self.plates[j], fields[i][j], self.qp);
                j += 1;
            }
            self.bodies.set(i, body);
            i += 1;
        }
        proof {
            let post = *self;
            assert forall|k: int| 0 <= k < n implies visits_total(post.quadtree, start.bodies@, k)
                == visits_total(tree, start.bodies@, k) by {
                Self::lemma_visits_frame(tree, post.quadtree, start.bodies@, k);
            }
            Self::lemma_visits_frame(tree, post.quadtree, start.bodies@, n as int);
            assert forall|k: int| 0 <= k < n implies #[trigger] post.bodies@[k] == after_plates(
                Body {
                    efield: post.quadtree.field_walk(start.bodies@[k].pos).field.scale_spec(
                        start.qe,
                    ),
                    ..start.bodies@[k]
                },
                start.plates@,
                fields@[k]@,
                start.qp,
                start.plates@.len() as int,
            ) by {
                tree.lemma_walk_frame(
                    post.quadtree,
                    0,
                    start.bodies@[k].pos,
                    crate::quadtree::Tally { field: Vec2 { x: 0, y: 0 }, visits: 0 },
                );
            }
            tree.lemma_shape_frame(post.quadtree);
            assert(post.quadtree.total_charge() == tree.total_charge());
            assert forall|p: Vec2| #[trigger] post.quadtree.charge_at(p) > 0 implies at_a_body(
                start.bodies@,
                p,
            ) by {
                assert(tree.charge_at(p) == post.quadtree.charge_at(p));
            }
            assert forall|j: int| 0 <= j < post.quadtree.nodes@.len() implies #[trigger] post.quadtree.located_at(
                j,
            ) by {
                assert(tree.located_at(j));
                tree.lemma_descend_links(post.quadtree, 0, tree.nodes@[j].pos);
            }
            assert forall|s: int| 0 <= s < post.quadtree.parents@.len() implies #[trigger] post.quadtree.aggregated_at(
                s,
            ) by {
                assert(tree.aggregated_at(s));
            }
        }
    }

    /// The count of evaluated nodes depends on the nodes, the threshold and
    /// the softening length alone.
    proof fn lemma_visits_frame(a: Quadtree, b: Quadtree, bodies: Seq<Body>, n: int)
        requires
            b.nodes@ == a.nodes@,
            b.t_sq == a.t_sq,
            b.e_sq == a.e_sq,
        ensures
            visits_total(b, bodies, n) == visits_total(a, bodies, n),
        decreases n,
    {
        if n > 0 {
            Self::lemma_visits_frame(a, b, bodies, n - 1);
            a.lemma_walk_frame(
                b,
                0,
                bodies[n - 1].pos,
                crate::quadtree::Tally { field: Vec2 { x: 0, y: 0 }, visits: 0 },
            );
        }
    }

    /// One time step: takes over pending bodies and plates, sums the fields
    /// on the bodies, moves them, and counts the frame. Without bodies only
    /// the frame is counted.
    pub fn step<F: Fn(i64, i64) -> Option<i64>>(
        &mut self,
        pending: Option<(Vec<Body>, Vec<Plate>)>,
        kernel: &F,
    ) -> (r: Option<(Vec<Body>, Vec<Plate>)>)
        requires
            forall|u: i64, v: i64| call_requires(*kernel, (u, v)),
        ensures
            exists|fresh: Simulation, fields: Seq<Vec<Vec2>>, pulled: Simulation, moved: Simulation| #[trigger]
                Self::stepped(
                    *old(self),
                    pending,
                    kernel,
                    fresh,
                    fields,
                    pulled,
                    moved,
                    *final(self),
                    r,
                ),
    {
        let ghost pre = *self;
        let back = self.refresh_objects(pending);
        let ghost fresh = *self;
        let fields = self.plate_fields(kernel);
        self.attract(&fields);
        let ghost pulled = *self;
        self.iterate();
        let ghost moved = *self;
        if self.frame == usize::MAX {
            self.frame = 0;
        } else {
            self.frame += 1;
        }
        assert(Self::stepped(pre, pending, kernel, fresh, fields@, pulled, moved, *self, back));
        back
    }

    /// Moves every body to its clipped position.
    pub fn iterate(&mut self)
        ensures
            Self::iterated(*old(self), *final(self)),
    {
        let ghost start = *self;
        let n = self.bodies.len();
        let mut i: usize = 0;
        while i < n
            invariant
                start == *old(self),
                n == start.bodies@.len(),
                i <= n,
                self.dt == start.dt,
                self.frame == start.frame,
                self.qe == start.qe,
                self.qp == start.qp,
                self.plates@ == start.plates@,
                self.quadtree == start.quadtree,
                self.bodies@.len() == n,
                forall|k: int|
                    0 <= k < i ==> #[trigger] self.bodies@[k] == (Body {
                        pos: clip_spec(start.bodies@[k], start.plates@, start.dt),
                        ..start.bodies@[k]
                    }),
                forall|k: int| i <= k < n ==> #[trigger] self.bodies@[k] == start.bodies@[k],
            decreases n - i,
        {
            let mut body = self.bodies[i];
            body.pos = get_new_pos_clip(&body, &self.plates, self.dt);
            self.bodies.set(i, body);
            i += 1;
        }
    }
}

} // verus!
