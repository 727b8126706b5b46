//! The Barnes-Hut quadtree: an arena of nodes linked by index.
//!
//! The nodes of a tree lie in one vector, the root first. Splitting a leaf
//! appends its four children, so a branch always lies before its children,
//! and each node carries the index of the node to visit after it, which lets
//! the field be evaluated in one loop without a stack.

pub mod arith;
pub mod descent;
pub mod laws;
pub mod outline;
pub mod sums;
pub mod traversal;

use vstd::prelude::*;
use crate::body::Body;
use crate::fixed::{abs_spec, clamp, lemma_mul_bound, saturate, trunc_div, ONE_SQ};
use crate::quadtree::arith::{
    lemma_div_at_least, lemma_div_below, lemma_mean_in_range, lemma_moment_bound,
};
use crate::quadtree::sums::{lemma_sum_agree, lemma_sum_nonneg, lemma_sum_update};
use crate::vec2::Vec2;

verus! {


/// An axis-aligned square, given by its center and the length of its side.
#[derive(Clone, Copy, Debug, PartialEq, Eq, Structural)]
pub struct Quad {
    pub center: Vec2,
    pub size: u32,
}

/// Whether `lo` and `hi` are the corners of the bounding box of `bodies`.
pub open spec fn bounding_box(bodies: Seq<Body>, lo: Vec2, hi: Vec2) -> bool {
    &&& forall|i: int|
        0 <= i < bodies.len() ==> lo.x <= (#[trigger] bodies[i]).pos.x <= hi.x && lo.y
            <= bodies[i].pos.y <= hi.y
    &&& exists|i: int| 0 <= i < bodies.len() && (#[trigger] bodies[i]).pos.x == lo.x
    &&& exists|i: int| 0 <= i < bodies.len() && (#[trigger] bodies[i]).pos.x == hi.x
    &&& exists|i: int| 0 <= i < bodies.len() && (#[trigger] bodies[i]).pos.y == lo.y
    &&& exists|i: int| 0 <= i < bodies.len() && (#[trigger] bodies[i]).pos.y == hi.y
}

impl Quad {
    /// The square centered on the middle of the box from `lo` to `hi` whose side
    /// is the longer side of the box.
    pub open spec fn spanning(lo: Vec2, hi: Vec2) -> Quad {
        Quad {
            center: Vec2 {
                x: trunc_div(lo.x + hi.x, 2) as i32,
                y: trunc_div(lo.y + hi.y, 2) as i32,
            },
            size: if hi.x - lo.x >= hi.y - lo.y {
                (hi.x - lo.x) as u32
            } else {
                (hi.y - lo.y) as u32
            },
        }
    }

    /// The quadrant of `pos`: bit 0 is set right of the center, bit 1 above it.
    /// A point level with the center counts as left of it, or below.
    pub open spec fn quadrant_spec(self, pos: Vec2) -> int {
        (if pos.y > self.center.y { 2int } else { 0int })
        + (if pos.x > self.center.x { 1int } else { 0int })
    }

    /// The child square in `quadrant`: half the side, the center moved by a
    /// quarter of the side along each axis.
    pub open spec fn child_spec(self, quadrant: int) -> Quad {
        let size = self.size / 2;
        let quarter = (size / 2) as int;
        Quad {
            center: Vec2 {
                x: clamp(self.center.x + if quadrant % 2 == 1 { quarter } else { -quarter }),
                y: clamp(self.center.y + if quadrant / 2 == 1 { quarter } else { -quarter }),
            },
            size,
        }
    }

    /// The smallest square around all `bodies` that is centered on the middle
    /// of their bounding box.
    pub fn new_containing(bodies: &[Body]) -> (q: Quad)
        requires
            bodies@.len() > 0,
        ensures
            exists|lo: Vec2, hi: Vec2| #[trigger]
                bounding_box(bodies@, lo, hi) && q == Quad::spanning(lo, hi),
    {
        let mut lo = bodies[0].pos;
        let mut hi = bodies[0].pos;
        let mut i: usize = 1;
        proof {
            assert(bodies@.take(1)[0] == bodies@[0]);
        }
        while i < bodies.len()
            invariant
                1 <= i <= bodies@.len(),
                bounding_box(bodies@.take(i as int), lo, hi),
            decreases bodies@.len() - i,
        {
            let ghost prev = bodies@.take(i as int);
            let ghost (lo0, hi0) = (lo, hi);
            let p = bodies[i].pos;
            if p.x < lo.x {
                lo.x = p.x;
            }
            if p.x > hi.x {
                hi.x = p.x;
            }
            if p.y < lo.y {
                lo.y = p.y;
            }
            if p.y > hi.y {
                hi.y = p.y;
            }
            i += 1;
            proof {
                let cur = bodies@.take(i as int);
                assert(cur[i - 1] == bodies@[i - 1]);
                assert forall|j: int| 0 <= j < prev.len() implies cur[j] == prev[j] by {}
                let ax = choose|j: int| 0 <= j < prev.len() && (#[trigger] prev[j]).pos.x == lo0.x;
                let bx = choose|j: int| 0 <= j < prev.len() && (#[trigger] prev[j]).pos.x == hi0.x;
                let ay = choose|j: int| 0 <= j < prev.len() && (#[trigger] prev[j]).pos.y == lo0.y;
                let by = choose|j: int| 0 <= j < prev.len() && (#[trigger] prev[j]).pos.y == hi0.y;
                assert(cur[ax] == prev[ax] && cur[bx] == prev[bx] && cur[ay] == prev[ay] && cur[by]
                    == prev[by]);
                assert forall|j: int| 0 <= j < cur.len() implies lo.x <= (#[trigger] cur[j]).pos.x
                    <= hi.x && lo.y <= cur[j].pos.y <= hi.y by {
                    if j < prev.len() {
                        assert(cur[j] == prev[j]);
                    }
                }
            }
        }
        proof {
            assert(bodies@.take(i as int) =~= bodies@);
        }
        assert(bodies@[0].pos.x <= hi.x && lo.x <= bodies@[0].pos.x);
        assert(bodies@[0].pos.y <= hi.y && lo.y <= bodies@[0].pos.y);
        let center = Vec2 {
            x: ((lo.x as i64 + hi.x as i64) / 2) as i32,
            y: ((lo.y as i64 + hi.y as i64) / 2) as i32,
        };
        let w: u32 = (hi.x as i64 - lo.x as i64) as u32;
        let h: u32 = (hi.y as i64 - lo.y as i64) as u32;
        let size = if w >= h { w } else { h };
        let q = Quad { center, size };
        assert(bounding_box(bodies@, lo, hi) && q == Quad::spanning(lo, hi));
        q
    }

    /// The quadrant of `pos` relative to the center.
    pub fn find_quadrant(&self, pos: Vec2) -> (r: usize)
        ensures
            r == self.quadrant_spec(pos),
            r < 4,
    {
        let up: usize = if pos.y > self.center.y { 2 } else { 0 };
        let right: usize = if pos.x > self.center.x { 1 } else { 0 };
        up + right
    }

    /// The child square in `quadrant`.
    pub fn into_quadrant(self, quadrant: usize) -> (r: Quad)
        requires
            quadrant < 4,
        ensures
            r == self.child_spec(quadrant as int),
    {
        let size = self.size / 2;
        let quarter: i128 = (size / 2) as i128;
        let dx = if quadrant % 2 == 1 { quarter } else { -quarter };
        let dy = if quadrant / 2 == 1 { quarter } else { -quarter };
        Quad {
            center: Vec2 {
                x: saturate(self.center.x as i128 + dx),
                y: saturate(self.center.y as i128 + dy),
            },
            size,
        }
    }

    /// The four child squares, by quadrant.
    pub fn subdivide(&self) -> (r: [Quad; 4])
        ensures
            forall|i: int| 0 <= i < 4 ==> #[trigger] r[i] == self.child_spec(i),
    {
        [
            self.into_quadrant(0),
            self.into_quadrant(1),
            self.into_quadrant(2),
            self.into_quadrant(3),
        ]
    }
}

/// A node of the tree. A leaf holds one position and the charge gathered at
/// it; a branch holds the total charge below it and its weighted centroid.
#[derive(Clone, Copy, Debug, PartialEq, Eq, Structural)]
pub struct Node {
    /// The index of the first of four consecutive children, or 0 for a leaf.
    pub children: usize,
    /// The node to visit after this one and everything below it; 0 ends the walk.
    pub next: usize,
    pub pos: Vec2,
    pub charge: u64,
    pub quad: Quad,
}

impl Node {
    /// A leaf without charge that covers `quad` and leads to `next`.
    pub open spec fn empty(next: usize, quad: Quad) -> Node {
        Node { children: 0, next, pos: Vec2 { x: 0, y: 0 }, charge: 0, quad }
    }

    /// The charge of the node times the weight of its position.
    pub open spec fn weighted(self, w: Weight) -> int {
        self.charge * w.of(self.pos)
    }

    /// An empty leaf.
    pub fn new(next: usize, quad: Quad) -> (r: Node)
        ensures
            r == Node::empty(next, quad),
    {
        Node { children: 0, next, pos: Vec2::zero(), charge: 0, quad }
    }

    pub fn is_leaf(&self) -> (r: bool)
        ensures
            r == (self.children == 0),
    {
        self.children == 0
    }

    pub fn is_branch(&self) -> (r: bool)
        ensures
            r == (self.children != 0),
    {
        self.children != 0
    }

    pub fn is_empty(&self) -> (r: bool)
        ensures
            r == (self.charge == 0),
    {
        self.charge == 0
    }

    /// Whether the node's square is small for its distance from `pos`: its
    /// side is less than the distance from `pos` to the node's position
    /// times the threshold whose square is `t_sq`.
    pub open spec fn is_far_spec(self, pos: Vec2, t_sq: u64) -> bool {
        self.quad.size * self.quad.size * ONE_SQ < dist_sq(pos, self.pos) * t_sq
    }

    /// The field at `pos` of the node's charge, all of it taken to lie at the
    /// node's position: the offset times the charge over the squared distance
    /// softened by `e_sq`. Where that divisor is zero the field is zero.
    pub open spec fn field_spec(self, pos: Vec2, e_sq: u64) -> Vec2 {
        let denom = dist_sq(pos, self.pos) + e_sq;
        if denom == 0 {
            Vec2 { x: 0, y: 0 }
        } else {
            Vec2 {
                x: pull_spec(pos.x - self.pos.x, self.charge as int, denom),
                y: pull_spec(pos.y - self.pos.y, self.charge as int, denom),
            }
        }
    }

    /// The square of the distance from the node's position to `pos`.
    fn dist_sq_to(&self, pos: Vec2) -> (r: u128)
        ensures
            r == dist_sq(pos, self.pos),
            r < 0x2_0000_0000_0000_0000,
    {
        let dx: i64 = pos.x as i64 - self.pos.x as i64;
        let dy: i64 = pos.y as i64 - self.pos.y as i64;
        proof {
            lemma_mul_bound(dx as int, dx as int, 0xffff_ffff, 0xffff_ffff);
            lemma_mul_bound(dy as int, dy as int, 0xffff_ffff, 0xffff_ffff);
            assert(dx * dx >= 0 && dy * dy >= 0) by (nonlinear_arith);
        }
        (dx as i128 * dx as i128 + dy as i128 * dy as i128) as u128
    }

    /// Whether the node may stand for everything below it when seen from `pos`.
    pub fn is_far(&self, pos: Vec2, t_sq: u64) -> (r: bool)
        ensures
            r == self.is_far_spec(pos, t_sq),
    {
        let d_sq = self.dist_sq_to(pos);
        proof {
            lemma_mul_bound(
                self.quad.size as int,
                self.quad.size as int,
                0xffff_ffff,
                0xffff_ffff,
            );
            assert(self.quad.size * self.quad.size >= 0) by (nonlinear_arith);
        }
        let side_sq: u128 = self.quad.size as u128 * self.quad.size as u128;
        let lhs: u128 = side_sq * 0x1_0000_0000;
        match d_sq.checked_mul(t_sq as u128) {
            Some(rhs) => lhs < rhs,
            None => true,
        }
    }

    /// The field at `pos` of the node's charge taken as a point.
    pub fn field_at(&self, pos: Vec2, e_sq: u64) -> (r: Vec2)
        ensures
            r == self.field_spec(pos, e_sq),
    {
        let denom: u128 = self.dist_sq_to(pos) + e_sq as u128;
        if denom == 0 {
            Vec2::zero()
        } else {
            Vec2 {
                x: pull(pos.x as i64 - self.pos.x as i64, self.charge, denom),
                y: pull(pos.y as i64 - self.pos.y as i64, self.charge, denom),
            }
        }
    }
}

/// The square of the distance from `b` to `a`, in units of `ONE * ONE`.
pub open spec fn dist_sq(a: Vec2, b: Vec2) -> int {
    (a.x - b.x) * (a.x - b.x) + (a.y - b.y) * (a.y - b.y)
}

/// One coordinate of the field of a point charge: the offset `d` times the
/// charge over the softened squared distance `denom`, as a saturated
/// fixed-point number rounded toward zero.
pub open spec fn pull_spec(d: int, charge: int, denom: int) -> i32 {
    clamp(trunc_div(d * charge * ONE_SQ, denom))
}

/// Computes `pull_spec` without leaving 128 bits.
fn pull(d: i64, charge: u64, denom: u128) -> (r: i32)
    requires
        -0x1_0000_0000 < d < 0x1_0000_0000,
        0 < denom < 0x4_0000_0000_0000_0000,
    ensures
        r == pull_spec(d as int, charge as int, denom as int),
{
    let size: u64 = if d >= 0 { d as u64 } else { (-d) as u64 };
    proof {
        lemma_mul_bound(size as int, charge as int, 0x1_0000_0000, 0x1_0000_0000_0000_0000);
        assert(size * charge >= 0) by (nonlinear_arith)
            requires
                size >= 0,
                charge >= 0,
        ;
    }
    let mag: u128 = size as u128 * charge as u128;
    let ghost num = mag * ONE_SQ;
    proof {
        assert(d * charge * ONE_SQ == if d >= 0 { num } else { -num }) by (nonlinear_arith)
            requires
                num == mag * ONE_SQ,
                mag == size * charge,
                size == if d >= 0 { d as int } else { -d },
        ;
    }
    if mag >= denom {
        proof {
            lemma_div_at_least(num, denom as int, ONE_SQ as int);
        }
        if d >= 0 {
            i32::MAX
        } else {
            i32::MIN
        }
    } else {
        proof {
            lemma_div_below(num, denom as int, ONE_SQ as int);
        }
        let q: u128 = (mag * 0x1_0000_0000) / denom;
        if d >= 0 {
            saturate(q as i128)
        } else {
            saturate(-(q as i128))
        }
    }
}

/// What to sum over the charges of a tree: each charge counts once, or only
/// at one position, or times a coordinate of its position.
pub enum Weight {
    Unit,
    At(Vec2),
    X,
    Y,
}

impl Weight {
    /// The factor that a unit of charge at `p` contributes.
    pub open spec fn of(self, p: Vec2) -> int {
        match self {
            Weight::Unit => 1,
            Weight::At(q) => if p == q { 1 } else { 0 },
            Weight::X => p.x as int,
            Weight::Y => p.y as int,
        }
    }
}

/// The weighted charge of `node` where the tree is cut off at `bound`: nodes
/// whose children lie at or beyond `bound` count as leaves, the others as
/// branches, which carry nothing of their own.
pub open spec fn term(node: Node, w: Weight, bound: int) -> int {
    if node.children == 0 || node.children >= bound {
        node.weighted(w)
    } else {
        0
    }
}

/// The sum of `term` over the first `n` nodes.
pub open spec fn frontier_sum(nodes: Seq<Node>, w: Weight, bound: int, n: int) -> int
    decreases n,
{
    if n <= 0 {
        0
    } else {
        frontier_sum(nodes, w, bound, n - 1) + term(nodes[n - 1], w, bound)
    }
}

/// The state of a field evaluation: the field summed so far and the number
/// of nodes that were evaluated for it.
pub struct Tally {
    pub field: Vec2,
    pub visits: nat,
}

/// The tree: nodes in an arena, the root at index 0, and the branches in the
/// order in which they were split.
pub struct Quadtree {
    /// The square of the opening threshold, in units of `ONE * ONE`.
    pub t_sq: u64,
    /// The square of the softening length, in units of `ONE * ONE`.
    pub e_sq: u64,
    pub nodes: Vec<Node>,
    pub parents: Vec<usize>,
    /// The nodes evaluated by `efield` since the last `clear`.
    pub calcs: usize,
}

/// The mean of four coordinates weighted by their charges, rounded toward zero.
fn mean_of_four(v: [i32; 4], c: [u64; 4]) -> (r: i32)
    requires
        0 < c[0] + c[1] + c[2] + c[3] <= u64::MAX,
    ensures
        r == trunc_div(
            c[0] * v[0] + c[1] * v[1] + c[2] * v[2] + c[3] * v[3],
            c[0] + c[1] + c[2] + c[3],
        ),
{
    proof {
        lemma_moment_bound(v[0] as int, c[0] as int);
        lemma_moment_bound(v[1] as int, c[1] as int);
        lemma_moment_bound(v[2] as int, c[2] as int);
        lemma_moment_bound(v[3] as int, c[3] as int);
    }
    let q: i128 = c[0] as i128 + c[1] as i128 + c[2] as i128 + c[3] as i128;
    proof {
        assert(i32::MIN * q == i32::MIN * c[0] + i32::MIN * c[1] + i32::MIN * c[2] + i32::MIN
            * c[3]);
        assert(i32::MAX * q == i32::MAX * c[0] + i32::MAX * c[1] + i32::MAX * c[2] + i32::MAX
            * c[3]);
    }
    let s: i128 = v[0] as i128 * c[0] as i128 + v[1] as i128 * c[1] as i128 + v[2] as i128
        * c[2] as i128 + v[3] as i128 * c[3] as i128;
    proof {
        lemma_mean_in_range(s as int, q as int, i32::MIN as int, i32::MAX as int);
    }
    (s / q) as i32
}

impl Quadtree {
    pub const ROOT: usize = 0;

    /// The `s`-th branch to be split lies before its children, which are the
    /// four nodes from `1 + 4 * s`: each covers one quadrant of it and leads to
    /// the next sibling, the last to wherever the parent leads.
    pub open spec fn slot_wf(self, s: int) -> bool {
        let p = self.parents@[s] as int;
        let c = 1 + 4 * s;
        let quad = self.nodes@[p].quad;
        &&& 0 <= p < c
        &&& self.nodes@[p].children == c
        &&& self.nodes@[c].quad == quad.child_spec(0)
        &&& self.nodes@[c + 1].quad == quad.child_spec(1)
        &&& self.nodes@[c + 2].quad == quad.child_spec(2)
        &&& self.nodes@[c + 3].quad == quad.child_spec(3)
        &&& self.nodes@[c].next == c + 1
        &&& self.nodes@[c + 1].next == c + 2
        &&& self.nodes@[c + 2].next == c + 3
        &&& self.nodes@[c + 3].next == self.nodes@[p].next
    }

    /// A branch is recorded in `parents` at the place that its children's
    /// index gives.
    pub open spec fn link_wf(self, j: int) -> bool {
        let c = self.nodes@[j].children as int;
        c != 0 ==> c % 4 == 1 && c / 4 < self.parents@.len() && self.parents@[c / 4] == j
    }

    /// The nodes form a tree rooted at index 0.
    pub open spec fn shape(self) -> bool {
        &&& self.nodes@.len() == 1 + 4 * self.parents@.len()
        &&& self.nodes@[0].next == 0
        &&& forall|s: int| 0 <= s < self.parents@.len() ==> #[trigger] self.slot_wf(s)
        &&& forall|j: int| 0 <= j < self.nodes@.len() ==> #[trigger] self.link_wf(j)
    }

    /// Whether node `j` has four children within the nodes.
    pub open spec fn branches(self, j: int) -> bool {
        0 <= j < self.nodes@[j].children && self.nodes@[j].children + 3 < self.nodes@.len()
    }

    /// The sum over the leaves of their charge times the weight of their position.
    pub open spec fn leaf_sum(self, w: Weight) -> int {
        frontier_sum(self.nodes@, w, self.nodes@.len() as int, self.nodes@.len() as int)
    }

    /// All the charge in the tree.
    pub open spec fn total_charge(self) -> int {
        self.leaf_sum(Weight::Unit)
    }

    /// The charge gathered at `p`.
    pub open spec fn charge_at(self, p: Vec2) -> int {
        self.leaf_sum(Weight::At(p))
    }

    /// The leaf at which a descent from node `j` toward `pos` ends.
    pub open spec fn descend(self, j: int, pos: Vec2) -> int
        decreases self.nodes@.len() - j,
    {
        if self.branches(j) {
            self.descend(self.nodes@[j].children + self.nodes@[j].quad.quadrant_spec(pos), pos)
        } else {
            j
        }
    }

    /// A leaf that holds charge is the leaf at which a descent from the
    /// root toward its position ends.
    pub open spec fn located_at(self, j: int) -> bool {
        self.nodes@[j].children == 0 && self.nodes@[j].charge != 0 ==> self.descend(
            0,
            self.nodes@[j].pos,
        ) == j
    }

    /// Every leaf that holds charge is where a descent toward its position
    /// ends.
    pub open spec fn located(self) -> bool {
        forall|j: int| 0 <= j < self.nodes@.len() ==> #[trigger] self.located_at(j)
    }

    /// A tree in which every charge is found from the root and the total
    /// charge fits its representation.
    pub open spec fn wf(self) -> bool {
        &&& self.shape()
        &&& self.located()
        &&& self.total_charge() <= u64::MAX
    }

    /// Whether splitting `quad` again and again puts `a` and `b` into different
    /// quadrants before the squares can no longer be halved or an arena of
    /// `len` nodes can no longer grow.
    pub open spec fn separates(quad: Quad, len: int, a: Vec2, b: Vec2) -> bool
        decreases quad.size,
    {
        if quad.size < 2 || len + 4 > usize::MAX {
            false
        } else if quad.quadrant_spec(a) != quad.quadrant_spec(b) {
            true
        } else {
            Self::separates(quad.child_spec(quad.quadrant_spec(a)), len + 4, a, b)
        }
    }

    /// The number of splits after which `a` and `b` lie in different
    /// quadrants, or after which the squares can no longer be halved or an
    /// arena of `len` nodes can no longer grow.
    pub open spec fn split_count(quad: Quad, len: int, a: Vec2, b: Vec2) -> nat
        decreases quad.size,
    {
        if quad.size < 2 || len + 4 > usize::MAX {
            0
        } else if quad.quadrant_spec(a) != quad.quadrant_spec(b) {
            1
        } else {
            1 + Self::split_count(quad.child_spec(quad.quadrant_spec(a)), len + 4, a, b)
        }
    }

    /// Where a charge inserted at `pos` comes to lie: at `pos`, unless the
    /// leaf it reaches is taken by another position from which no split can
    /// separate it; then it joins the charge of that position.
    pub open spec fn landing(self, pos: Vec2) -> Vec2 {
        let taken = self.nodes@[self.descend(0, pos)];
        if taken.charge == 0 || taken.pos == pos || Self::separates(
            taken.quad,
            self.nodes@.len() as int,
            taken.pos,
            pos,
        ) {
            pos
        } else {
            taken.pos
        }
    }

    /// The charge of the four nodes from `c`.
    pub open spec fn charge_of_four(nodes: Seq<Node>, c: int) -> int {
        nodes[c].charge + nodes[c + 1].charge + nodes[c + 2].charge + nodes[c + 3].charge
    }

    /// The weighted charge of the four nodes from `c`.
    pub open spec fn moment_of_four(nodes: Seq<Node>, c: int, w: Weight) -> int {
        nodes[c].weighted(w) + nodes[c + 1].weighted(w) + nodes[c + 2].weighted(w) + nodes[c
            + 3].weighted(w)
    }

    /// The centroid of the four nodes from `c`, each weighted by its charge
    /// and each coordinate rounded toward zero; the origin if they hold no charge.
    pub open spec fn centroid(nodes: Seq<Node>, c: int) -> Vec2 {
        let q = Self::charge_of_four(nodes, c);
        if q == 0 {
            Vec2 { x: 0, y: 0 }
        } else {
            Vec2 {
                x: trunc_div(Self::moment_of_four(nodes, c, Weight::X), q) as i32,
                y: trunc_div(Self::moment_of_four(nodes, c, Weight::Y), q) as i32,
            }
        }
    }

    /// The `s`-th branch holds the charge of its children and their centroid.
    pub open spec fn aggregated_at(self, s: int) -> bool {
        let node = self.nodes@[self.parents@[s] as int];
        &&& node.charge == Self::charge_of_four(self.nodes@, 1 + 4 * s)
        &&& node.pos == Self::centroid(self.nodes@, 1 + 4 * s)
    }

    /// Every branch holds the charge of its children and their centroid.
    pub open spec fn aggregated(self) -> bool {
        forall|s: int| 0 <= s < self.parents@.len() ==> #[trigger] self.aggregated_at(s)
    }

    /// The weighted charge of the leaves at and below node `j`.
    pub open spec fn below(self, j: int, w: Weight) -> int
        decreases self.nodes@.len() - j,
    {
        if self.branches(j) {
            let c = self.nodes@[j].children as int;
            self.below(c, w) + self.below(c + 1, w) + self.below(c + 2, w) + self.below(c + 3, w)
        } else {
            self.nodes@[j].weighted(w)
        }
    }

    /// The number of levels below node `j`.
    pub open spec fn height(self, j: int) -> nat
        decreases self.nodes@.len() - j,
    {
        if self.branches(j) {
            let c = self.nodes@[j].children as int;
            let a = self.height(c);
            let b = self.height(c + 1);
            let d = self.height(c + 2);
            let e = self.height(c + 3);
            let ab = if a >= b { a } else { b };
            let de = if d >= e { d } else { e };
            1 + if ab >= de { ab } else { de }
        } else {
            0
        }
    }

    /// Whether node `j` is evaluated as one point charge from `pos`: a leaf
    /// always, a branch when it is far enough for its size.
    pub open spec fn taken_whole(self, j: int, pos: Vec2) -> bool {
        self.nodes@[j].children == 0 || self.nodes@[j].is_far_spec(pos, self.t_sq)
    }

    /// Whether the evaluation from `pos` goes on into the children of node `j`.
    pub open spec fn opened(self, j: int, pos: Vec2) -> bool {
        self.branches(j) && !self.taken_whole(j, pos)
    }

    /// The evaluation at `pos` of node `j` and what lies below it, on top of
    /// `acc`: a node taken whole adds its point field and counts once; an
    /// opened one hands `acc` through its four children in order.
    pub open spec fn walk(self, j: int, pos: Vec2, acc: Tally) -> Tally
        decreases self.nodes@.len() - j,
    {
        if self.opened(j, pos) {
            let c = self.nodes@[j].children as int;
            self.walk(c + 3, pos, self.walk(c + 2, pos, self.walk(c + 1, pos, self.walk(c, pos, acc))))
        } else {
            Tally {
                field: acc.field.plus_spec(self.nodes@[j].field_spec(pos, self.e_sq)),
                visits: acc.visits + 1,
            }
        }
    }

    /// The field at `pos` and the number of nodes evaluated for it.
    pub open spec fn field_walk(self, pos: Vec2) -> Tally {
        self.walk(0, pos, Tally { field: Vec2 { x: 0, y: 0 }, visits: 0 })
    }

    /// The evaluation at `pos` that opens every branch at and below node
    /// `j`: on top of `acc`, the fields of all the leaves in order, each
    /// taken by itself.
    pub open spec fn exact_walk(self, j: int, pos: Vec2, acc: Tally) -> Tally
        decreases self.nodes@.len() - j,
    {
        if self.branches(j) {
            let c = self.nodes@[j].children as int;
            self.exact_walk(
                c + 3,
                pos,
                self.exact_walk(c + 2, pos, self.exact_walk(c + 1, pos, self.exact_walk(c, pos, acc))),
            )
        } else {
            Tally {
                field: acc.field.plus_spec(self.nodes@[j].field_spec(pos, self.e_sq)),
                visits: acc.visits + 1,
            }
        }
    }

    /// A tree without nodes; `clear` gives it a root. `theta` is the opening
    /// threshold, `epsilon` the softening length.
    pub fn new(theta: i32, epsilon: i32) -> (r: Quadtree)
        ensures
            r.t_sq == theta * theta,
            r.e_sq == epsilon * epsilon,
            r.nodes@.len() == 0,
            r.parents@.len() == 0,
            r.calcs == 0,
    {
        proof {
            lemma_mul_bound(theta as int, theta as int, 0x8000_0000, 0x8000_0000);
            lemma_mul_bound(epsilon as int, epsilon as int, 0x8000_0000, 0x8000_0000);
            assert(theta * theta >= 0 && epsilon * epsilon >= 0) by (nonlinear_arith);
        }
        Quadtree {
            t_sq: (theta as i64 * theta as i64) as u64,
            e_sq: (epsilon as i64 * epsilon as i64) as u64,
            nodes: Vec::new(),
            parents: Vec::new(),
            calcs: 0,
        }
    }

    /// Resets the tree to a single empty leaf that covers `quad`.
    pub fn clear(&mut self, quad: Quad)
        ensures
            final(self).wf(),
            final(self).nodes@ == seq![Node::empty(0, quad)],
            final(self).parents@.len() == 0,
            final(self).calcs == 0,
            final(self).t_sq == old(self).t_sq,
            final(self).e_sq == old(self).e_sq,
            forall|w: Weight| #[trigger] final(self).leaf_sum(w) == 0,
    {
        self.nodes.clear();
        self.parents.clear();
        self.nodes.push(Node::new(0, quad));
        self.calcs = 0;
        proof {
            assert(self.nodes@ =~= seq![Node::empty(0, quad)]);
            assert forall|w: Weight| #[trigger] self.leaf_sum(w) == 0 by {
                reveal_with_fuel(frontier_sum, 2);
            }
        }
    }

    /// Turns the leaf `node` into a branch with four empty leaves, and returns
    /// the index of the first of them.
    pub fn subdivide(&mut self, node: usize) -> (children: usize)
        requires
            old(self).shape(),
            node < old(self).nodes@.len(),
            old(self).nodes@[node as int].children == 0,
            old(self).nodes@.len() + 4 <= usize::MAX,
        ensures
            final(self).shape(),
            children == old(self).nodes@.len(),
            final(self).parents@ == old(self).parents@.push(node),
            final(self).nodes@.len() == old(self).nodes@.len() + 4,
            final(self).nodes@[node as int] == (Node { children, ..old(self).nodes@[node as int] }),
            forall|j: int|
                0 <= j < old(self).nodes@.len() && j != node ==> #[trigger] final(self).nodes@[j]
                    == old(self).nodes@[j],
            forall|i: int|
                0 <= i < 4 ==> {
                    let n = #[trigger] final(self).nodes@[children + i];
                    let quad = old(self).nodes@[node as int].quad;
                    n.children == 0 && n.charge == 0 && n.quad == quad.child_spec(i)
                },
            final(self).t_sq == old(self).t_sq,
            final(self).e_sq == old(self).e_sq,
            final(self).calcs == old(self).calcs,
            forall|w: Weight| #[trigger]
                final(self).leaf_sum(w) == old(self).leaf_sum(w) - old(self).nodes@[node as int].weighted(
                    w,
                ),
            old(self).located() ==> final(self).located(),
            forall|x: Vec2|
                #[trigger] old(self).descend(0, x) == node ==> final(self).descend(0, x) == children
                    + old(self).nodes@[node as int].quad.quadrant_spec(x),
    {
        let ghost before = *self;
        self.parents.push(node);
        let children = self.nodes.len();
        let mut split = self.nodes[node];
        let next = split.next;
        let quads = split.quad.subdivide();
        split.children = children;
        self.nodes.set(node, split);
        let ghost marked = self.nodes@;
        self.nodes.push(Node::new(children + 1, quads[0]));
        self.nodes.push(Node::new(children + 2, quads[1]));
        self.nodes.push(Node::new(children + 3, quads[2]));
        self.nodes.push(Node::new(next, quads[3]));
        proof {
            let n0 = before.nodes@.len() as int;
            assert forall|s: int| 0 <= s < self.parents@.len() implies #[trigger] self.slot_wf(s) by {
                if s < before.parents@.len() {
                    assert(before.slot_wf(s));
                }
            }
            assert forall|j: int| 0 <= j < self.nodes@.len() implies #[trigger] self.link_wf(j) by {
                if j < n0 {
                    assert(before.link_wf(j));
                }
            }
            assert forall|w: Weight| #[trigger]
                self.leaf_sum(w) == before.leaf_sum(w) - before.nodes@[node as int].charge * w.of(
                    before.nodes@[node as int].pos,
                ) by {
                let n4 = n0 + 4;
                let cur = self.nodes@;
                assert(cur[n0].charge == 0 && cur[n0 + 1].charge == 0);
                assert(cur[n0 + 2].charge == 0 && cur[n0 + 3].charge == 0);
                assert(term(cur[n0], w, n4) == 0 && term(cur[n0 + 1], w, n4) == 0);
                assert(term(cur[n0 + 2], w, n4) == 0 && term(cur[n0 + 3], w, n4) == 0);
                assert(frontier_sum(cur, w, n4, n0 + 1) == frontier_sum(cur, w, n4, n0));
                assert(frontier_sum(cur, w, n4, n0 + 2) == frontier_sum(cur, w, n4, n0 + 1));
                assert(frontier_sum(cur, w, n4, n0 + 3) == frontier_sum(cur, w, n4, n0 + 2));
                assert(frontier_sum(cur, w, n4, n0 + 4) == frontier_sum(cur, w, n4, n0 + 3));
                lemma_sum_agree(self.nodes@, marked, w, n4, n0);
                lemma_sum_update(before.nodes@, w, n4, n0, node as int, split);
                before.lemma_sum_rebound(w, n0, n4, n0);
            }
            assert forall|x: Vec2| #[trigger] before.descend(0, x) == node implies self.descend(0, x)
                == children + before.nodes@[node as int].quad.quadrant_spec(x) by {
                before.lemma_descend_split(*self, node as int, 0, x);
                let q = before.nodes@[node as int].quad.quadrant_spec(x);
                assert(self.nodes@[children + q].children == 0);
                assert(self.descend(children + q, x) == children + q);
            }
            if before.located() {
                assert forall|j: int| 0 <= j < self.nodes@.len() implies #[trigger] self.located_at(
                    j,
                ) by {
                    if j < n0 && j != node {
                        assert(before.located_at(j));
                        before.lemma_descend_split(*self, node as int, 0, self.nodes@[j].pos);
                    } else if j >= n0 {
                        assert(self.nodes@[children + (j - n0)].charge == 0);
                    }
                }
            }
        }
        children
    }

    /// Gives the leaf `node` a position and a charge.
    fn fill(&mut self, node: usize, pos: Vec2, charge: u64)
        requires
            old(self).shape(),
            node < old(self).nodes@.len(),
            old(self).nodes@[node as int].children == 0,
        ensures
            final(self).shape(),
            final(self).nodes@ == old(self).nodes@.update(
                node as int,
                (Node { pos, charge, ..old(self).nodes@[node as int] }),
            ),
            final(self).parents@ == old(self).parents@,
            final(self).t_sq == old(self).t_sq,
            final(self).e_sq == old(self).e_sq,
            final(self).calcs == old(self).calcs,
            forall|w: Weight| #[trigger]
                final(self).leaf_sum(w) == old(self).leaf_sum(w) + charge * w.of(pos) - old(
                    self,
                ).nodes@[node as int].weighted(w),
    {
        let ghost before = *self;
        let mut leaf = self.nodes[node];
        leaf.pos = pos;
        leaf.charge = charge;
        self.nodes.set(node, leaf);
        proof {
            before.lemma_shape_frame(*self);
            let n = before.nodes@.len() as int;
            assert forall|w: Weight| #[trigger]
                self.leaf_sum(w) == before.leaf_sum(w) + charge * w.of(pos)
                    - before.nodes@[node as int].weighted(w) by {
                lemma_sum_update(before.nodes@, w, n, n, node as int, leaf);
            }
        }
    }

    /// Adds `charge` at `pos`. The leaf at which a descent toward `pos`
    /// ends takes it if it is empty or holds `pos` already. If it holds
    /// another position it is split, and the child that the two positions
    /// share again, until they part into leaves of their own. Where they
    /// cannot part, because the square cannot be halved or the arena cannot
    /// grow, the charge joins that of the position that was there.
    pub fn insert(&mut self, pos: Vec2, charge: u64)
        requires
            old(self).wf(),
            old(self).total_charge() + charge <= u64::MAX,
        ensures
            final(self).wf(),
            forall|w: Weight| #[trigger]
                final(self).leaf_sum(w) == old(self).leaf_sum(w) + charge * w.of(
                    old(self).landing(pos),
                ),
            ({
                let leaf = old(self).descend(0, pos);
                let taken = old(self).nodes@[leaf];
                let takes = taken.charge == 0 || taken.pos == pos;
                let splits = Self::split_count(
                    taken.quad,
                    old(self).nodes@.len() as int,
                    taken.pos,
                    pos,
                );
                &&& forall|j: int|
                    0 <= j < old(self).nodes@.len() && j != leaf ==> #[trigger] final(self).nodes@[j]
                        == old(self).nodes@[j]
                &&& final(self).parents@.take(old(self).parents@.len() as int) == old(self).parents@
                &&& final(self).parents@.len() == old(self).parents@.len() + if takes {
                    0
                } else {
                    splits
                }
                &&& takes ==> final(self).nodes@ == old(self).nodes@.update(
                    leaf,
                    (Node { pos, charge: (taken.charge + charge) as u64, ..taken }),
                )
            }),
            final(self).nodes@[0].quad == old(self).nodes@[0].quad,
            final(self).t_sq == old(self).t_sq,
            final(self).e_sq == old(self).e_sq,
            final(self).calcs == old(self).calcs,
    {
        let ghost start = *self;
        let mut node: usize = Self::ROOT;
        while self.nodes[node].is_branch()
            invariant
                *self == start,
                self.shape(),
                node < self.nodes@.len(),
                self.descend(node as int, pos) == self.descend(0, pos),
            decreases self.nodes@.len() - node,
        {
            proof {
                assert(self.link_wf(node as int));
                assert(self.slot_wf(self.nodes@[node as int].children as int / 4));
            }
            let quadrant = self.nodes[node].quad.find_quadrant(pos);
            node = self.nodes[node].children + quadrant;
        }
        let taken = self.nodes[node];
        let ghost origin = node as int;
        assert(origin == start.descend(0, pos));
        assert(self.parents@.take(self.parents@.len() as int) =~= self.parents@);
        proof {
            lemma_sum_nonneg(
                self.nodes@,
                Weight::Unit,
                self.nodes@.len() as int,
                self.nodes@.len() as int,
                node as int,
            );
        }
        if taken.is_empty() {
            self.fill(node, pos, charge);
            proof {
                start.lemma_fill_located(*self, node as int, pos, charge);
                assert(self.leaf_sum(Weight::Unit) == start.leaf_sum(Weight::Unit) + charge * 1);
            }
            return ;
        }
        let p = taken.pos;
        let m = taken.charge;
        assert(self.located_at(node as int));
        if pos == p {
            self.fill(node, p, m + charge);
            proof {
                start.lemma_fill_located(*self, node as int, p, (m + charge) as u64);
                assert forall|w: Weight| #[trigger]
                    self.leaf_sum(w) == start.leaf_sum(w) + charge * w.of(pos) by {
                    assert((m + charge) * w.of(p) - m * w.of(p) == charge * w.of(p))
                        by (nonlinear_arith);
                }
                assert(self.leaf_sum(Weight::Unit) == start.leaf_sum(Weight::Unit) + charge * 1);
            }
            return ;
        }
        loop
            invariant
                start == *old(self),
                self.shape(),
                self.located(),
                self.descend(0, p) == node,
                self.descend(0, pos) == node,
                start.shape(),
                node < self.nodes@.len(),
                self.nodes@.len() >= start.nodes@.len(),
                self.nodes@[node as int].children == 0,
                self.nodes@[0].quad == start.nodes@[0].quad,
                self.t_sq == start.t_sq,
                self.e_sq == start.e_sq,
                self.calcs == start.calcs,
                p != pos,
                origin == start.descend(0, pos),
                taken == start.nodes@[origin],
                taken.charge != 0,
                taken.pos == p,
                node == origin || node >= start.nodes@.len(),
                0 <= origin < start.nodes@.len(),
                forall|j: int|
                    0 <= j < start.nodes@.len() && j != origin ==> #[trigger] self.nodes@[j]
                        == start.nodes@[j],
                self.parents@.len() >= start.parents@.len(),
                self.parents@.take(start.parents@.len() as int) == start.parents@,
                self.parents@.len() - start.parents@.len() + Self::split_count(
                    self.nodes@[node as int].quad,
                    self.nodes@.len() as int,
                    p,
                    pos,
                ) == Self::split_count(taken.quad, start.nodes@.len() as int, p, pos),
                m + charge <= u64::MAX,
                start.total_charge() + charge <= u64::MAX,
                forall|w: Weight| #[trigger]
                    self.leaf_sum(w) - self.nodes@[node as int].weighted(w) + m * w.of(p)
                        == start.leaf_sum(w),
                Self::separates(self.nodes@[node as int].quad, self.nodes@.len() as int, p, pos)
                    == Self::separates(taken.quad, start.nodes@.len() as int, p, pos),
                start.landing(pos) == if Self::separates(
                    taken.quad,
                    start.nodes@.len() as int,
                    p,
                    pos,
                ) {
                    pos
                } else {
                    p
                },
            decreases self.nodes@[node as int].quad.size,
        {
            let ghost entry = *self;
            let quad = self.nodes[node].quad;
            if quad.size < 2 || self.nodes.len() > usize::MAX - 4 {
                self.fill(node, p, m + charge);
                proof {
                    entry.lemma_fill_located(*self, node as int, p, (m + charge) as u64);
                    assert forall|w: Weight| #[trigger]
                        self.leaf_sum(w) == start.leaf_sum(w) + charge * w.of(p) by {
                        assert(entry.leaf_sum(w) - entry.nodes@[node as int].weighted(w) + m * w.of(p)
                            == start.leaf_sum(w));
                        assert((m + charge) * w.of(p) - m * w.of(p) == charge * w.of(p))
                            by (nonlinear_arith);
                    }
                    assert(self.leaf_sum(Weight::Unit) == start.leaf_sum(Weight::Unit) + charge
                        * 1);
                }
                return ;
            }
            let children = self.subdivide(node);
            let ghost split = *self;
            assert(split.parents@.take(start.parents@.len() as int) =~= entry.parents@.take(
                start.parents@.len() as int,
            ));
            let q1 = quad.find_quadrant(p);
            let q2 = quad.find_quadrant(pos);
            proof {
                assert(entry.descend(0, p) == node && entry.descend(0, pos) == node);
                assert(split.nodes@[children + q1].charge == 0);
                assert(split.nodes@[children + q2].charge == 0);
                assert forall|w: Weight| #[trigger]
                    split.leaf_sum(w) + m * w.of(p) == start.leaf_sum(w) by {
                    assert(entry.leaf_sum(w) - entry.nodes@[node as int].weighted(w) + m * w.of(p)
                        == start.leaf_sum(w));
                }
            }
            if q1 == q2 {
                node = children + q1;
                proof {
                    assert forall|w: Weight| #[trigger]
                        self.leaf_sum(w) - self.nodes@[node as int].weighted(w) + m * w.of(p)
                            == start.leaf_sum(w) by {
                        assert(split.leaf_sum(w) + m * w.of(p) == start.leaf_sum(w));
                    }
                }
            } else {
                self.fill(children + q1, p, m);
                let ghost first = *self;
                self.fill(children + q2, pos, charge);
                proof {
                    split.lemma_fill_located(first, children + q1, p, m);
                    first.lemma_fill_located(*self, children + q2, pos, charge);
                    assert forall|w: Weight| #[trigger]
                        self.leaf_sum(w) == start.leaf_sum(w) + charge * w.of(pos) by {
                        assert(split.leaf_sum(w) + m * w.of(p) == start.leaf_sum(w));
                        assert(split.nodes@[children + q1].weighted(w) == 0);
                        assert(first.nodes@[children + q2].weighted(w) == 0);
                    }
                    assert(self.leaf_sum(Weight::Unit) == start.leaf_sum(Weight::Unit) + charge
                        * 1);
                }
                return ;
            }
        }
    }

    /// Gives every branch the charge of its children and their centroid,
    /// the branches split last first. The root then holds all the charge of
    /// the tree, and its position is the mean of the positions of the
    /// charges to within one unit for each level of the tree.
    pub fn propagate(&mut self)
        requires
            old(self).wf(),
        ensures
            final(self).wf(),
            final(self).aggregated(),
            final(self).parents@ == old(self).parents@,
            final(self).nodes@.len() == old(self).nodes@.len(),
            forall|j: int|
                0 <= j < old(self).nodes@.len() ==> {
                    let a = #[trigger] old(self).nodes@[j];
                    let b = final(self).nodes@[j];
                    a.children == b.children && a.next == b.next && a.quad == b.quad && (a.children
                        == 0 ==> a == b)
                },
            forall|w: Weight| #[trigger] final(self).leaf_sum(w) == old(self).leaf_sum(w),
            final(self).nodes@[0].charge == final(self).total_charge(),
            abs_spec(
                final(self).nodes@[0].charge * final(self).nodes@[0].pos.x - final(self).leaf_sum(
                    Weight::X,
                ),
            ) <= final(self).nodes@[0].charge * final(self).height(0),
            abs_spec(
                final(self).nodes@[0].charge * final(self).nodes@[0].pos.y - final(self).leaf_sum(
                    Weight::Y,
                ),
            ) <= final(self).nodes@[0].charge * final(self).height(0),
            final(self).t_sq == old(self).t_sq,
            final(self).e_sq == old(self).e_sq,
            final(self).calcs == old(self).calcs,
    {
        let ghost start = *self;
        let ghost total = self.total_charge();
        let ghost splits = self.parents@.len() as int;
        proof {
            lemma_sum_nonneg(
                self.nodes@,
                Weight::Unit,
                self.nodes@.len() as int,
                self.nodes@.len() as int,
                0,
            );
        }
        let mut k = self.parents.len();
        while k > 0
            invariant
                start == *old(self),
                start.shape(),
                self.shape(),
                self.parents@ == start.parents@,
                self.nodes@.len() == start.nodes@.len(),
                self.t_sq == start.t_sq,
                self.e_sq == start.e_sq,
                self.calcs == start.calcs,
                splits == self.parents@.len(),
                forall|j: int|
                    0 <= j < start.nodes@.len() ==> {
                        let a = #[trigger] start.nodes@[j];
                        let b = self.nodes@[j];
                        a.children == b.children && a.next == b.next && a.quad == b.quad && (
                        a.children == 0 ==> a == b)
                    },
                0 <= k <= splits,
                forall|s: int| k <= s < splits ==> #[trigger] self.aggregated_at(s),
                0 <= total <= u64::MAX,
                total == start.total_charge(),
                self.stage_sum(Weight::Unit, k as int) == total,
            decreases k,
        {
            let ghost entry = *self;
            k -= 1;
            let node = self.parents[k];
            proof {
                assert(self.slot_wf(k as int));
                entry.lemma_stage(Weight::Unit, k as int);
                lemma_sum_nonneg(self.nodes@, Weight::Unit, 1 + 4 * k, 1 + 4 * k, node as int);
                assert(self.nodes@[node as int].weighted(Weight::Unit) == self.nodes@[node as int].charge);
            }
            let c = self.nodes[node].children;
            let n0 = self.nodes[c];
            let n1 = self.nodes[c + 1];
            let n2 = self.nodes[c + 2];
            let n3 = self.nodes[c + 3];
            let charges = [n0.charge, n1.charge, n2.charge, n3.charge];
            assert(Self::moment_of_four(self.nodes@, c as int, Weight::Unit) == n0.charge + n1.charge
                + n2.charge + n3.charge);
            let charge: u64 = n0.charge + n1.charge + n2.charge + n3.charge;
            let pos = if charge == 0 {
                Vec2::zero()
            } else {
                Vec2 {
                    x: mean_of_four([n0.pos.x, n1.pos.x, n2.pos.x, n3.pos.x], charges),
                    y: mean_of_four([n0.pos.y, n1.pos.y, n2.pos.y, n3.pos.y], charges),
                }
            };
            let mut branch = self.nodes[node];
            branch.pos = pos;
            branch.charge = charge;
            self.nodes.set(node, branch);
            proof {
                entry.lemma_shape_frame(*self);
                assert(self.aggregated_at(k as int));
                assert forall|s: int| k <= s < splits implies #[trigger] self.aggregated_at(s) by {
                    if s > k {
                        assert(entry.aggregated_at(s));
                        assert(entry.slot_wf(s));
                    }
                }
                lemma_sum_update(entry.nodes@, Weight::Unit, 1 + 4 * k, 1 + 4 * k, node as int, branch);
                assert(self.stage_sum(Weight::Unit, k as int) == total);
            }
        }
        proof {
            self.lemma_root_is_mean();
            let n = start.nodes@.len() as int;
            assert forall|w: Weight| #[trigger] self.leaf_sum(w) == start.leaf_sum(w) by {
                start.lemma_sum_leaves(*self, w, n);
            }
            assert forall|j: int| 0 <= j < n implies #[trigger] self.located_at(j) by {
                assert(start.located_at(j));
                assert(start.nodes@[j].children == self.nodes@[j].children);
                start.lemma_descend_links(*self, 0, self.nodes@[j].pos);
            }
        }
    }

    /// The field at `pos` of all the charge in the tree: every node that is a
    /// leaf, or far enough from `pos` for its size, adds the field of its
    /// charge as a point; the others are opened. Counts the nodes evaluated
    /// in `calcs`, which stops at the largest `usize`.
    pub fn efield(&mut self, pos: Vec2) -> (r: Vec2)
        requires
            old(self).shape(),
        ensures
            r == old(self).field_walk(pos).field,
            final(self).calcs == if old(self).calcs + old(self).field_walk(pos).visits
                <= usize::MAX {
                (old(self).calcs + old(self).field_walk(pos).visits) as usize
            } else {
                usize::MAX
            },
            final(self).nodes@ == old(self).nodes@,
            final(self).parents@ == old(self).parents@,
            final(self).t_sq == old(self).t_sq,
            final(self).e_sq == old(self).e_sq,
    {
        let ghost start = *self;
        let mut efield = Vec2::zero();
        let mut node: usize = Self::ROOT;
        let ghost mut path: Seq<int> = seq![0int];
        let ghost mut visits: nat = 0;
        loop
            invariant
                start == *old(self),
                start.shape(),
                self.nodes@ == start.nodes@,
                self.parents@ == start.parents@,
                self.t_sq == start.t_sq,
                self.e_sq == start.e_sq,
                node < self.nodes@.len(),
                start.on_path(path, pos),
                path.last() == node,
                start.field_walk(pos) == start.resume(
                    path,
                    pos,
                    start.walk(node as int, pos, Tally { field: efield, visits }),
                ),
                self.calcs == if start.calcs + visits <= usize::MAX {
                    (start.calcs + visits) as usize
                } else {
                    usize::MAX
                },
            decreases start.size(node as int) + start.pending(path),
        {
            let n = self.nodes[node];
            proof {
                assert(start.link_wf(node as int));
                if n.children != 0 {
                    assert(start.slot_wf(n.children as int / 4));
                }
            }
            if n.is_leaf() || n.is_far(pos, self.t_sq) {
                efield = efield.plus(n.field_at(pos, self.e_sq));
                if self.calcs < usize::MAX {
                    self.calcs += 1;
                }
                proof {
                    visits = visits + 1;
                    let onward = start.lemma_advance(path, pos, Tally { field: efield, visits });
                    path = if n.next == 0 { path } else { onward };
                }
                if n.next == 0 {
                    return efield;
                }
                node = n.next;
            } else {
                proof {
                    assert(start.opened(node as int, pos));
                    start.lemma_path_down(path, pos, n.children as int);
                    path = path.push(n.children as int);
                }
                node = n.children;
            }
        }
    }
}

} // verus!
