//! What the stepping side and the editing side of a program hand to each
//! other: the lists that one side leaves for the other, a flag for each
//! direction that says whether something new was left, and the tunables.
//!
//! A program keeps one `Handoff` behind a lock and holds the lock only for
//! one of the calls below.

use vstd::prelude::*;
use crate::body::Body;
use crate::fixed::ONE;
use crate::plate::Plate;
use crate::quadtree::Node;
use crate::simulation::Simulation;

verus! {

pub struct Handoff {
    pub bodies: Vec<Body>,
    pub plates: Vec<Plate>,
    pub nodes: Vec<Node>,
    /// The time step that the editing side asks for.
    pub dt: i32,
    /// The scale of the bodies' field that the editing side asks for.
    pub qe: i32,
    /// The scale of the plates' field that the editing side asks for.
    pub qp: i32,
    /// Whether the stepping side has left a state that was not taken yet.
    pub sim_updated: bool,
    /// Whether the editing side has left bodies and plates that were not
    /// taken yet.
    pub consumer_updated: bool,
}

/// A copy of the vector.
pub fn copy_of<T: Copy>(items: &Vec<T>) -> (r: Vec<T>)
    ensures
        r@ == items@,
{
    let mut r: Vec<T> = Vec::with_capacity(items.len());
    let mut i: usize = 0;
    while i < items.len()
        invariant
            i <= items@.len(),
            r@ == items@.take(i as int),
        decreases items@.len() - i,
    {
        r.push(items[i]);
        proof {
            assert(r@ =~= items@.take(i + 1));
        }
        i += 1;
    }
    proof {
        assert(items@.take(i as int) =~= items@);
    }
    r
}

/// The time step to use when `dt` is asked for: `dt` itself if it is
/// positive, else the smallest positive step.
pub open spec fn positive_step(dt: i32) -> i32 {
    if dt > 0 {
        dt
    } else {
        1
    }
}

impl Handoff {
    /// Nothing left by either side; a time step of one, and the scales at
    /// 0.56 for the bodies and 0.045 for the plates.
    pub fn new() -> (r: Handoff)
        ensures
            r.bodies@.len() == 0,
            r.plates@.len() == 0,
            r.nodes@.len() == 0,
            r.dt == ONE,
            r.qe == 36700,
            r.qp == 2949,
            !r.sim_updated,
            !r.consumer_updated,
    {
        Handoff {
            bodies: Vec::new(),
            plates: Vec::new(),
            nodes: Vec::new(),
            dt: ONE,
            qe: 36700,
            qp: 2949,
            sim_updated: false,
            consumer_updated: false,
        }
    }

    /// The stepping side takes the bodies and plates that the editing side
    /// has left since they were last taken, if any.
    pub fn take_pending(&mut self) -> (r: Option<(Vec<Body>, Vec<Plate>)>)
        ensures
            r == if old(self).consumer_updated {
                Some((old(self).bodies, old(self).plates))
            } else {
                None
            },
            old(self).consumer_updated ==> {
                &&& final(self).bodies@.len() == 0
                &&& final(self).plates@.len() == 0
            },
            !old(self).consumer_updated ==> {
                &&& final(self).bodies == old(self).bodies
                &&& final(self).plates == old(self).plates
            },
            !final(self).consumer_updated,
            final(self).nodes == old(self).nodes,
            final(self).dt == old(self).dt,
            final(self).qe == old(self).qe,
            final(self).qp == old(self).qp,
            final(self).sim_updated == old(self).sim_updated,
    {
        if self.consumer_updated {
            self.consumer_updated = false;
            let mut bodies: Vec<Body> = Vec::new();
            let mut plates: Vec<Plate> = Vec::new();
            std::mem::swap(&mut self.bodies, &mut bodies);
            std::mem::swap(&mut self.plates, &mut plates);
            Some((bodies, plates))
        } else {
            None
        }
    }

    /// The stepping side leaves the state of the simulation: its bodies,
    /// its plates and the nodes of its tree; and the simulation takes over
    /// the tunables, with a time step that is positive.
    pub fn publish(&mut self, simulation: &mut Simulation)
        ensures
            final(self).bodies@ == old(simulation).bodies@,
            final(self).plates@ == old(simulation).plates@,
            final(self).nodes@ == old(simulation).quadtree.nodes@,
            final(self).sim_updated,
            final(self).consumer_updated == old(self).consumer_updated,
            final(self).dt == old(self).dt,
            final(self).qe == old(self).qe,
            final(self).qp == old(self).qp,
            *final(simulation) == (Simulation {
                dt: positive_step(old(self).dt),
                qe: old(self).qe,
                qp: old(self).qp,
                ..*old(simulation)
            }),
    {
        self.bodies = copy_of(&simulation.bodies);
        self.plates = copy_of(&simulation.plates);
        self.nodes = copy_of(&simulation.quadtree.nodes);
        simulation.dt = if self.dt > 0 { self.dt } else { 1 };
        simulation.qe = self.qe;
        simulation.qp = self.qp;
        self.sim_updated = true;
    }

    /// The editing side takes the state that the stepping side has left
    /// since it was last taken, if any, in exchange for its own lists, and
    /// says whether it took one.
    pub fn receive(
        &mut self,
        bodies: &mut Vec<Body>,
        plates: &mut Vec<Plate>,
        nodes: &mut Vec<Node>,
    ) -> (r: bool)
        ensures
            r == old(self).sim_updated,
            !final(self).sim_updated,
            r ==> {
                &&& *final(bodies) == old(self).bodies
                &&& *final(plates) == old(self).plates
                &&& *final(nodes) == old(self).nodes
                &&& final(self).bodies == *old(bodies)
                &&& final(self).plates == *old(plates)
                &&& final(self).nodes == *old(nodes)
            },
            !r ==> {
                &&& *final(bodies) == *old(bodies)
                &&& *final(plates) == *old(plates)
                &&& *final(nodes) == *old(nodes)
                &&& final(self).bodies == old(self).bodies
                &&& final(self).plates == old(self).plates
                &&& final(self).nodes == old(self).nodes
            },
            final(self).consumer_updated == old(self).consumer_updated,
            final(self).dt == old(self).dt,
            final(self).qe == old(self).qe,
            final(self).qp == old(self).qp,
    {
        if self.sim_updated {
            std::mem::swap(&mut self.bodies, bodies);
            std::mem::swap(&mut self.plates, plates);
            std::mem::swap(&mut self.nodes, nodes);
            self.sim_updated = false;
            true
        } else {
            false
        }
    }

    /// The editing side leaves the bodies and plates that it has edited.
    pub fn submit(&mut self, bodies: &Vec<Body>, plates: &Vec<Plate>)
        ensures
            final(self).bodies@ == bodies@,
            final(self).plates@ == plates@,
            final(self).consumer_updated,
            final(self).nodes == old(self).nodes,
            final(self).sim_updated == old(self).sim_updated,
            final(self).dt == old(self).dt,
            final(self).qe == old(self).qe,
            final(self).qp == old(self).qp,
    {
        self.bodies = copy_of(bodies);
        self.plates = copy_of(plates);
        self.consumer_updated = true;
    }
}

} // verus!
