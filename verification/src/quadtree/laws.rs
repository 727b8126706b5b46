//! What holds of every tree: how the threshold trades work for
//! exactness, and how near the root lies to the mean of the charges.

use vstd::prelude::*;
use crate::fixed::{abs_spec, lemma_trunc_div_bounds, lemma_trunc_div_odd, ONE_SQ};
use crate::quadtree::arith::lemma_mean_of_four_in_range;
use crate::quadtree::{dist_sq, frontier_sum, Node, Quadtree, Tally, Weight};
use crate::vec2::Vec2;

verus! {

/// The fields at a position of two equal charges that mirror each other
/// in it cancel, unless one of them is so strong that it saturates at the
/// lower end.
pub proof fn lemma_mirrored_charges_cancel(a: Node, b: Node, mid: Vec2, e_sq: u64)
    requires
        a.charge == b.charge,
        a.pos.x + b.pos.x == 2 * mid.x,
        a.pos.y + b.pos.y == 2 * mid.y,
        a.field_spec(mid, e_sq).x > i32::MIN && a.field_spec(mid, e_sq).y > i32::MIN,
        b.field_spec(mid, e_sq).x > i32::MIN && b.field_spec(mid, e_sq).y > i32::MIN,
    ensures
        a.field_spec(mid, e_sq).plus_spec(b.field_spec(mid, e_sq)) == (Vec2 { x: 0, y: 0 }),
{
    let dx = mid.x - a.pos.x;
    let dy = mid.y - a.pos.y;
    assert(mid.x - b.pos.x == -dx && mid.y - b.pos.y == -dy);
    assert(dist_sq(mid, b.pos) == dist_sq(mid, a.pos)) by (nonlinear_arith)
        requires
            mid.x - b.pos.x == -(mid.x - a.pos.x),
            mid.y - b.pos.y == -(mid.y - a.pos.y),
    ;
    let denom = dist_sq(mid, a.pos) + e_sq;
    assert(dist_sq(mid, a.pos) >= 0) by (nonlinear_arith);
    if denom != 0 {
        let q = a.charge as int;
        assert((-dx) * q * ONE_SQ == -(dx * q * ONE_SQ) && (-dy) * q * ONE_SQ == -(dy * q
            * ONE_SQ)) by (nonlinear_arith);
        lemma_trunc_div_odd(dx * q * ONE_SQ, denom);
        lemma_trunc_div_odd(dy * q * ONE_SQ, denom);
    }
}

impl Quadtree {
    /// A node that is far enough under one threshold is so under every larger one.
    pub proof fn lemma_far_monotone(node: Node, pos: Vec2, t1: u64, t2: u64)
        requires
            t1 <= t2,
            node.is_far_spec(pos, t1),
        ensures
            node.is_far_spec(pos, t2),
    {
        let d = dist_sq(pos, node.pos);
        assert(d * t1 <= d * t2) by (nonlinear_arith)
            requires
                d == (pos.x - node.pos.x) * (pos.x - node.pos.x) + (pos.y - node.pos.y) * (pos.y
                    - node.pos.y),
                t1 <= t2,
        ;
    }

    /// With a threshold of zero no branch stands for what lies below it.
    pub proof fn lemma_exact_below(self, j: int, pos: Vec2, acc: Tally)
        requires
            self.t_sq == 0,
        ensures
            self.walk(j, pos, acc) == self.exact_walk(j, pos, acc),
        decreases self.nodes@.len() - j,
    {
        let d = dist_sq(pos, self.nodes@[j].pos);
        let side = self.nodes@[j].quad.size as int;
        assert(d * 0 == 0 && side * side * ONE_SQ >= 0) by (nonlinear_arith);
        assert(self.opened(j, pos) == self.branches(j));
        if self.branches(j) {
            let c = self.nodes@[j].children as int;
            let a1 = self.walk(c, pos, acc);
            let a2 = self.walk(c + 1, pos, a1);
            let a3 = self.walk(c + 2, pos, a2);
            self.lemma_exact_below(c, pos, acc);
            self.lemma_exact_below(c + 1, pos, a1);
            self.lemma_exact_below(c + 2, pos, a2);
            self.lemma_exact_below(c + 3, pos, a3);
        }
    }

    /// With a threshold of zero the field is exact: the evaluation opens
    /// every branch and adds up the fields of all the leaves.
    pub proof fn lemma_zero_threshold_is_exact(self, pos: Vec2)
        requires
            self.t_sq == 0,
        ensures
            self.field_walk(pos) == self.exact_walk(
                0,
                pos,
                Tally { field: Vec2 { x: 0, y: 0 }, visits: 0 },
            ),
    {
        self.lemma_exact_below(0, pos, Tally { field: Vec2 { x: 0, y: 0 }, visits: 0 });
    }

    /// Below any node, a larger threshold evaluates no more nodes than a
    /// smaller one, and every evaluation counts at least one node.
    pub proof fn lemma_visits_below(self, other: Quadtree, j: int, pos: Vec2, a: Tally, b: Tally)
        requires
            other.nodes@ == self.nodes@,
            self.t_sq <= other.t_sq,
        ensures
            other.walk(j, pos, b).visits - b.visits <= self.walk(j, pos, a).visits - a.visits,
            other.walk(j, pos, b).visits >= b.visits + 1,
        decreases self.nodes@.len() - j,
    {
        let node = self.nodes@[j];
        let c = node.children as int;
        if node.is_far_spec(pos, self.t_sq) {
            Self::lemma_far_monotone(node, pos, self.t_sq, other.t_sq);
        }
        if self.opened(j, pos) {
            let a1 = self.walk(c, pos, a);
            let a2 = self.walk(c + 1, pos, a1);
            let a3 = self.walk(c + 2, pos, a2);
            if other.opened(j, pos) {
                let b1 = other.walk(c, pos, b);
                let b2 = other.walk(c + 1, pos, b1);
                let b3 = other.walk(c + 2, pos, b2);
                self.lemma_visits_below(other, c, pos, a, b);
                self.lemma_visits_below(other, c + 1, pos, a1, b1);
                self.lemma_visits_below(other, c + 2, pos, a2, b2);
                self.lemma_visits_below(other, c + 3, pos, a3, b3);
            } else {
                self.lemma_visits_below(self, c, pos, a, a);
                self.lemma_visits_below(self, c + 1, pos, a1, a1);
                self.lemma_visits_below(self, c + 2, pos, a2, a2);
                self.lemma_visits_below(self, c + 3, pos, a3, a3);
            }
        } else {
            assert(!other.opened(j, pos));
        }
    }

    /// Raising the opening threshold of a tree never makes the evaluation
    /// of the field at a position visit more nodes.
    pub proof fn lemma_visits_monotone(self, other: Quadtree, pos: Vec2)
        requires
            other.nodes@ == self.nodes@,
            self.t_sq <= other.t_sq,
        ensures
            other.field_walk(pos).visits <= self.field_walk(pos).visits,
    {
        let zero = Tally { field: Vec2 { x: 0, y: 0 }, visits: 0 };
        self.lemma_visits_below(other, 0, pos, zero, zero);
    }

    /// What node `j` adds to a sum of `below` over the tree cut off at `bound`.
    pub open spec fn below_term(self, j: int, w: Weight, bound: int) -> int {
        if self.nodes@[j].children == 0 || self.nodes@[j].children >= bound {
            self.below(j, w)
        } else {
            0
        }
    }

    /// The sum of `below_term` over the first `n` nodes.
    pub open spec fn below_sum(self, w: Weight, bound: int, n: int) -> int
        decreases n,
    {
        if n <= 0 {
            0
        } else {
            self.below_sum(w, bound, n - 1) + self.below_term(n - 1, w, bound)
        }
    }

    /// Cutting the tree four nodes earlier puts the one branch whose
    /// children start at the cut in their place.
    pub proof fn lemma_below_cut(self, w: Weight, c: int, p: int, n: int)
        requires
            0 <= n <= self.nodes@.len(),
            c % 4 == 1,
            0 <= p < self.nodes@.len(),
            self.nodes@[p].children == c,
            forall|j: int|
                0 <= j < n ==> {
                    let d = (#[trigger] self.nodes@[j]).children;
                    (d == 0 || d % 4 == 1) && (d == c ==> j == p)
                },
        ensures
            self.below_sum(w, c, n) == self.below_sum(w, c + 4, n) + if p < n {
                self.below(p, w)
            } else {
                0
            },
        decreases n,
    {
        if n > 0 {
            self.lemma_below_cut(w, c, p, n - 1);
            let d = self.nodes@[n - 1].children;
            assert(d == 0 || d % 4 == 1);
        }
    }

    /// The sum of `below` is the same however early the tree is cut off:
    /// it is what lies below the root.
    pub proof fn lemma_below_stage(self, w: Weight, k: int)
        requires
            self.shape(),
            0 <= k <= self.parents@.len(),
        ensures
            self.below_sum(w, 1 + 4 * k, 1 + 4 * k) == self.below(0, w),
        decreases k,
    {
        if k == 0 {
            assert(self.below_sum(w, 1, 1) == self.below_sum(w, 1, 0) + self.below_term(0, w, 1));
            assert(self.below_sum(w, 1, 0) == 0);
        } else {
            self.lemma_below_stage(w, k - 1);
            let c = 1 + 4 * (k - 1);
            let p = self.parents@[k - 1] as int;
            assert(self.slot_wf(k - 1));
            assert forall|j: int| 0 <= j < c implies {
                let d = (#[trigger] self.nodes@[j]).children;
                (d == 0 || d % 4 == 1) && (d == c ==> j == p)
            } by {
                assert(self.link_wf(j));
            }
            self.lemma_below_cut(w, c, p, c);
            self.lemma_child_links(k - 1, 0);
            self.lemma_child_links(k - 1, 1);
            self.lemma_child_links(k - 1, 2);
            self.lemma_child_links(k - 1, 3);
            let b = c + 4;
            assert(self.below_sum(w, b, c + 1) == self.below_sum(w, b, c) + self.below_term(c, w, b));
            assert(self.below_sum(w, b, c + 2) == self.below_sum(w, b, c + 1) + self.below_term(
                c + 1,
                w,
                b,
            ));
            assert(self.below_sum(w, b, c + 3) == self.below_sum(w, b, c + 2) + self.below_term(
                c + 2,
                w,
                b,
            ));
            assert(self.below_sum(w, b, c + 4) == self.below_sum(w, b, c + 3) + self.below_term(
                c + 3,
                w,
                b,
            ));
            assert(self.branches(p));
        }
    }

    /// Cut off behind its last node, the sum of `below` is the sum over the leaves.
    pub proof fn lemma_below_leaves(self, w: Weight, n: int)
        requires
            self.shape(),
            0 <= n <= self.nodes@.len(),
        ensures
            self.below_sum(w, self.nodes@.len() as int, n) == frontier_sum(
                self.nodes@,
                w,
                self.nodes@.len() as int,
                n,
            ),
        decreases n,
    {
        if n > 0 {
            self.lemma_below_leaves(w, n - 1);
            assert(self.link_wf(n - 1));
        }
    }

    /// What lies below the root is what the leaves hold.
    pub proof fn lemma_below_root(self, w: Weight)
        requires
            self.shape(),
        ensures
            self.below(0, w) == self.leaf_sum(w),
    {
        self.lemma_below_stage(w, self.parents@.len() as int);
        self.lemma_below_leaves(w, self.nodes@.len() as int);
    }

    /// The product of a charge and a bound on a height is at least the
    /// product with the height.
    pub proof fn lemma_scaled(q: int, h: int, top: int)
        by (nonlinear_arith)
        requires
            0 <= q,
            0 <= h <= top,
        ensures
            q * h <= q * top,
            0 <= q * h,
    {
    }

    /// The errors of four children and the error of rounding their mean
    /// add up to one unit more than the largest of theirs.
    pub proof fn lemma_error_adds(
        q: Seq<int>,
        v: Seq<int>,
        b: Seq<int>,
        h: Seq<int>,
        top: int,
        mean: int,
    )
        requires
            q.len() == 4 && v.len() == 4 && b.len() == 4 && h.len() == 4,
            forall|i: int| 0 <= i < 4 ==> 0 <= #[trigger] q[i],
            forall|i: int| 0 <= i < 4 ==> 0 <= #[trigger] h[i] <= top,
            forall|i: int| 0 <= i < 4 ==> abs_spec(q[i] * v[i] - b[i]) <= q[i] * #[trigger] h[i],
            abs_spec((q[0] + q[1] + q[2] + q[3]) * mean - (q[0] * v[0] + q[1] * v[1] + q[2] * v[2]
                + q[3] * v[3])) <= q[0] + q[1] + q[2] + q[3],
        ensures
            abs_spec((q[0] + q[1] + q[2] + q[3]) * mean - (b[0] + b[1] + b[2] + b[3])) <= (q[0]
                + q[1] + q[2] + q[3]) * (top + 1),
    {
        let total = q[0] + q[1] + q[2] + q[3];
        Self::lemma_scaled(q[0], h[0], top);
        Self::lemma_scaled(q[1], h[1], top);
        Self::lemma_scaled(q[2], h[2], top);
        Self::lemma_scaled(q[3], h[3], top);
        assert(total * top == q[0] * top + q[1] * top + q[2] * top + q[3] * top)
            by (nonlinear_arith)
            requires
                total == q[0] + q[1] + q[2] + q[3],
        ;
        assert(total * (top + 1) == total * top + total) by (nonlinear_arith);
    }

    /// The centroid of four nodes times their charge misses the sum of their
    /// positions times their charges by no more than the charge.
    pub proof fn lemma_centroid_error(nodes: Seq<Node>, c: int)
        ensures
            abs_spec(Self::charge_of_four(nodes, c) * Self::centroid(nodes, c).x
                - Self::moment_of_four(nodes, c, Weight::X)) <= Self::charge_of_four(nodes, c),
            abs_spec(Self::charge_of_four(nodes, c) * Self::centroid(nodes, c).y
                - Self::moment_of_four(nodes, c, Weight::Y)) <= Self::charge_of_four(nodes, c),
    {
        let q = Self::charge_of_four(nodes, c);
        let mx = Self::moment_of_four(nodes, c, Weight::X);
        let my = Self::moment_of_four(nodes, c, Weight::Y);
        if q > 0 {
            lemma_trunc_div_bounds(mx, q);
            lemma_trunc_div_bounds(my, q);
            lemma_mean_of_four_in_range(nodes, c, Weight::X);
            lemma_mean_of_four_in_range(nodes, c, Weight::Y);
        } else {
            assert(nodes[c].charge == 0 && nodes[c + 1].charge == 0);
            assert(nodes[c + 2].charge == 0 && nodes[c + 3].charge == 0);
            assert(0 * Weight::X.of(nodes[c].pos) == 0 && 0 * Weight::Y.of(nodes[c].pos) == 0);
            assert(0 * Weight::X.of(nodes[c + 1].pos) == 0 && 0 * Weight::Y.of(nodes[c + 1].pos)
                == 0);
            assert(0 * Weight::X.of(nodes[c + 2].pos) == 0 && 0 * Weight::Y.of(nodes[c + 2].pos)
                == 0);
            assert(0 * Weight::X.of(nodes[c + 3].pos) == 0 && 0 * Weight::Y.of(nodes[c + 3].pos)
                == 0);
            assert(q * 0 == 0);
        }
    }

    /// Once every branch holds the charge of its children and their
    /// centroid, every node holds the charge of the leaves below it, and its
    /// position times that charge misses the sum of their positions times
    /// their charges by no more than the charge for each level below it.
    pub proof fn lemma_aggregate_below(self, j: int)
        requires
            self.shape(),
            self.aggregated(),
            0 <= j < self.nodes@.len(),
        ensures
            self.nodes@[j].charge == self.below(j, Weight::Unit),
            abs_spec(self.nodes@[j].charge * self.nodes@[j].pos.x - self.below(j, Weight::X))
                <= self.nodes@[j].charge * self.height(j),
            abs_spec(self.nodes@[j].charge * self.nodes@[j].pos.y - self.below(j, Weight::Y))
                <= self.nodes@[j].charge * self.height(j),
        decreases self.nodes@.len() - j,
    {
        let node = self.nodes@[j];
        let nodes = self.nodes@;
        assert(self.link_wf(j));
        if node.children != 0 {
            let c = node.children as int;
            assert(self.slot_wf(c / 4));
            assert(self.aggregated_at(c / 4));
            assert(self.branches(j));
            self.lemma_aggregate_below(c);
            self.lemma_aggregate_below(c + 1);
            self.lemma_aggregate_below(c + 2);
            self.lemma_aggregate_below(c + 3);
            Self::lemma_centroid_error(nodes, c);
            let q = seq![
                nodes[c].charge as int,
                nodes[c + 1].charge as int,
                nodes[c + 2].charge as int,
                nodes[c + 3].charge as int,
            ];
            let h = seq![
                self.height(c) as int,
                self.height(c + 1) as int,
                self.height(c + 2) as int,
                self.height(c + 3) as int,
            ];
            let top = self.height(j) - 1;
            assert(node.charge == q[0] + q[1] + q[2] + q[3]);
            assert(self.below(j, Weight::Unit) == self.below(c, Weight::Unit) + self.below(
                c + 1,
                Weight::Unit,
            ) + self.below(c + 2, Weight::Unit) + self.below(c + 3, Weight::Unit));
            assert(node.pos == Self::centroid(nodes, c));
            assert(abs_spec(node.charge * node.pos.x - self.below(j, Weight::X)) <= node.charge
                * self.height(j)) by {
                let v = seq![
                    nodes[c].pos.x as int,
                    nodes[c + 1].pos.x as int,
                    nodes[c + 2].pos.x as int,
                    nodes[c + 3].pos.x as int,
                ];
                let b = seq![
                    self.below(c, Weight::X),
                    self.below(c + 1, Weight::X),
                    self.below(c + 2, Weight::X),
                    self.below(c + 3, Weight::X),
                ];
                assert(Weight::X.of(nodes[c].pos) == v[0] && Weight::X.of(nodes[c + 1].pos) == v[1]);
                assert(Weight::X.of(nodes[c + 2].pos) == v[2] && Weight::X.of(nodes[c + 3].pos)
                    == v[3]);
                assert(self.below(j, Weight::X) == b[0] + b[1] + b[2] + b[3]);
                Self::lemma_error_adds(q, v, b, h, top, node.pos.x as int);
            }
            assert(abs_spec(node.charge * node.pos.y - self.below(j, Weight::Y)) <= node.charge
                * self.height(j)) by {
                let v = seq![
                    nodes[c].pos.y as int,
                    nodes[c + 1].pos.y as int,
                    nodes[c + 2].pos.y as int,
                    nodes[c + 3].pos.y as int,
                ];
                let b = seq![
                    self.below(c, Weight::Y),
                    self.below(c + 1, Weight::Y),
                    self.below(c + 2, Weight::Y),
                    self.below(c + 3, Weight::Y),
                ];
                assert(Weight::Y.of(nodes[c].pos) == v[0] && Weight::Y.of(nodes[c + 1].pos) == v[1]);
                assert(Weight::Y.of(nodes[c + 2].pos) == v[2] && Weight::Y.of(nodes[c + 3].pos)
                    == v[3]);
                assert(self.below(j, Weight::Y) == b[0] + b[1] + b[2] + b[3]);
                Self::lemma_error_adds(q, v, b, h, top, node.pos.y as int);
            }
        } else {
            assert(node.charge * 0 == 0);
            assert(!self.branches(j));
        }
    }

    /// In a tree whose branches hold the charge of their children and their
    /// centroid, the root holds all the charge, and its position is the
    /// mean of the positions of the charges to within one unit for each
    /// level of the tree.
    pub proof fn lemma_root_is_mean(self)
        requires
            self.shape(),
            self.aggregated(),
        ensures
            self.nodes@[0].charge == self.total_charge(),
            abs_spec(self.nodes@[0].charge * self.nodes@[0].pos.x - self.leaf_sum(Weight::X))
                <= self.nodes@[0].charge * self.height(0),
            abs_spec(self.nodes@[0].charge * self.nodes@[0].pos.y - self.leaf_sum(Weight::Y))
                <= self.nodes@[0].charge * self.height(0),
    {
        self.lemma_aggregate_below(0);
        self.lemma_below_root(Weight::Unit);
        self.lemma_below_root(Weight::X);
        self.lemma_below_root(Weight::Y);
    }
}

} // verus!
