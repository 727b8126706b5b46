//! Descents from the root, and why every charge is found by one.

use vstd::prelude::*;
use crate::quadtree::{term, Node, Quadtree, Weight};
use crate::vec2::Vec2;

verus! {

impl Quadtree {
    /// A tree keeps its shape when its nodes keep their links and squares.
    pub proof fn lemma_shape_frame(self, other: Quadtree)
        requires
            self.shape(),
            other.parents@ == self.parents@,
            other.nodes@.len() == self.nodes@.len(),
            forall|j: int|
                0 <= j < self.nodes@.len() ==> {
                    let a = #[trigger] self.nodes@[j];
                    let b = other.nodes@[j];
                    a.children == b.children && a.next == b.next && a.quad == b.quad
                },
        ensures
            other.shape(),
    {
        assert forall|s: int| 0 <= s < other.parents@.len() implies #[trigger] other.slot_wf(s) by {
            assert(self.slot_wf(s));
            let c = 1 + 4 * s;
            let p = self.parents@[s] as int;
            assert(self.nodes@[p].quad == other.nodes@[p].quad);
            assert(self.nodes@[c].quad == other.nodes@[c].quad);
            assert(self.nodes@[c + 1].quad == other.nodes@[c + 1].quad);
            assert(self.nodes@[c + 2].quad == other.nodes@[c + 2].quad);
            assert(self.nodes@[c + 3].quad == other.nodes@[c + 3].quad);
        }
        assert forall|j: int| 0 <= j < other.nodes@.len() implies #[trigger] other.link_wf(j) by {
            assert(self.link_wf(j));
            assert(self.nodes@[j].children == other.nodes@[j].children);
        }
    }

    /// A descent depends on the children and the squares of the nodes alone.
    pub proof fn lemma_descend_links(self, other: Quadtree, j: int, pos: Vec2)
        requires
            other.nodes@.len() == self.nodes@.len(),
            forall|i: int|
                0 <= i < self.nodes@.len() ==> (#[trigger] self.nodes@[i]).children
                    == other.nodes@[i].children && self.nodes@[i].quad == other.nodes@[i].quad,
        ensures
            other.descend(j, pos) == self.descend(j, pos),
        decreases self.nodes@.len() - j,
    {
        if self.branches(j) {
            let c = self.nodes@[j].children + self.nodes@[j].quad.quadrant_spec(pos);
            self.lemma_descend_links(other, c, pos);
        }
    }

    /// In a tree a descent ends at a leaf.
    pub proof fn lemma_descend_leaf(self, j: int, pos: Vec2)
        requires
            self.shape(),
            0 <= j < self.nodes@.len(),
        ensures
            j <= self.descend(j, pos) < self.nodes@.len(),
            self.nodes@[self.descend(j, pos)].children == 0,
        decreases self.nodes@.len() - j,
    {
        assert(self.link_wf(j));
        let c = self.nodes@[j].children as int;
        if c != 0 {
            assert(self.slot_wf(c / 4));
            self.lemma_descend_leaf(c + self.nodes@[j].quad.quadrant_spec(pos), pos);
        }
    }

    /// When the leaf `node` of a tree has been split, a descent that ended
    /// elsewhere ends where it did, and one that ended at `node` goes on
    /// from there.
    pub proof fn lemma_descend_split(self, other: Quadtree, node: int, j: int, pos: Vec2)
        requires
            self.shape(),
            0 <= node < self.nodes@.len() <= other.nodes@.len(),
            0 <= j < self.nodes@.len(),
            self.nodes@[node].children == 0,
            forall|i: int|
                0 <= i < self.nodes@.len() && i != node ==> #[trigger] other.nodes@[i]
                    == self.nodes@[i],
        ensures
            self.descend(j, pos) != node ==> other.descend(j, pos) == self.descend(j, pos),
            self.descend(j, pos) == node ==> other.descend(j, pos) == other.descend(node, pos),
        decreases self.nodes@.len() - j,
    {
        if j != node {
            assert(other.nodes@[j] == self.nodes@[j]);
            assert(self.link_wf(j));
            let c = self.nodes@[j].children as int;
            if c != 0 {
                assert(self.slot_wf(c / 4));
                self.lemma_descend_split(other, node, c + self.nodes@[j].quad.quadrant_spec(pos), pos);
            }
        }
    }

    /// Filling a leaf at which a descent toward the new position ends keeps
    /// every charge where it is found.
    pub proof fn lemma_fill_located(self, other: Quadtree, node: int, pos: Vec2, charge: u64)
        requires
            self.located(),
            0 <= node < self.nodes@.len(),
            self.nodes@[node].children == 0,
            other.nodes@ == self.nodes@.update(
                node,
                (Node { pos, charge, ..self.nodes@[node] }),
            ),
            charge != 0 ==> self.descend(0, pos) == node,
        ensures
            other.located(),
            forall|x: Vec2| other.descend(0, x) == self.descend(0, x),
    {
        assert forall|x: Vec2| other.descend(0, x) == self.descend(0, x) by {
            self.lemma_descend_links(other, 0, x);
        }
        assert forall|j: int| 0 <= j < other.nodes@.len() implies #[trigger] other.located_at(j) by {
            assert(self.located_at(j));
        }
    }

    /// All the charge gathered at a position lies in one leaf: the leaf at
    /// which a descent from the root toward the position ends.
    pub proof fn lemma_charge_in_one_leaf(self, p: Vec2)
        requires
            self.shape(),
            self.located(),
        ensures
            0 <= self.descend(0, p) < self.nodes@.len(),
            self.nodes@[self.descend(0, p)].children == 0,
            self.charge_at(p) == if self.nodes@[self.descend(0, p)].pos == p {
                self.nodes@[self.descend(0, p)].charge as int
            } else {
                0
            },
    {
        let n = self.nodes@.len() as int;
        let found = self.descend(0, p);
        let w = Weight::At(p);
        self.lemma_descend_leaf(0, p);
        assert forall|i: int| 0 <= i < n && i != found implies term(
            #[trigger] self.nodes@[i],
            w,
            n,
        ) == 0 by {
            assert(self.link_wf(i));
            assert(self.located_at(i));
            let node = self.nodes@[i];
            if node.children == 0 && node.charge != 0 {
                assert(node.pos != p);
                assert(node.charge * 0 == 0);
            }
        }
        Self::lemma_sum_single(self.nodes@, w, n, n, found);
        let leaf = self.nodes@[found];
        assert(leaf.charge * 1 == leaf.charge && leaf.charge * 0 == 0);
    }
}

} // verus!
