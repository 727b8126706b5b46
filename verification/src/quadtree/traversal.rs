//! Why following the `next` indices evaluates the tree as the recursive
//! definition does, and why that ends.

use vstd::prelude::*;
use crate::quadtree::{Quadtree, Tally};
use crate::vec2::Vec2;

verus! {

impl Quadtree {
    /// The evaluation of the siblings that follow node `j` among the four
    /// from `c`.
    pub open spec fn walk_rest(self, j: int, c: int, pos: Vec2, acc: Tally) -> Tally {
        if j == c {
            self.walk(c + 3, pos, self.walk(c + 2, pos, self.walk(c + 1, pos, acc)))
        } else if j == c + 1 {
            self.walk(c + 3, pos, self.walk(c + 2, pos, acc))
        } else if j == c + 2 {
            self.walk(c + 3, pos, acc)
        } else {
            acc
        }
    }

    /// What is left of the evaluation once the last node of `path` is done
    /// with: the siblings after it, then those after its parent, up to the root.
    pub open spec fn resume(self, path: Seq<int>, pos: Vec2, acc: Tally) -> Tally
        decreases path.len(),
    {
        if path.len() <= 1 {
            acc
        } else {
            let c = self.nodes@[path[path.len() - 2]].children as int;
            self.resume(path.drop_last(), pos, self.walk_rest(path.last(), c, pos, acc))
        }
    }

    /// The `i`-th node of `path` is opened and the next is one of its children.
    pub open spec fn hop(self, path: Seq<int>, i: int, pos: Vec2) -> bool {
        let c = self.nodes@[path[i]].children;
        self.opened(path[i], pos) && c <= path[i + 1] <= c + 3
    }

    /// A chain of opened nodes from the root, each the parent of the next.
    pub open spec fn on_path(self, path: Seq<int>, pos: Vec2) -> bool {
        &&& path.len() >= 1
        &&& path[0] == 0
        &&& forall|i: int| 0 <= i < path.len() - 1 ==> #[trigger] self.hop(path, i, pos)
    }

    /// The number of nodes at and below node `j`.
    pub open spec fn size(self, j: int) -> nat
        decreases self.nodes@.len() - j,
    {
        let c = self.nodes@[j].children as int;
        if self.branches(j) {
            1 + self.size(c) + self.size(c + 1) + self.size(c + 2) + self.size(c + 3)
        } else {
            1
        }
    }

    /// The number of nodes at and below the siblings that follow node `j`
    /// among the four from `c`.
    pub open spec fn rest_size(self, j: int, c: int) -> nat {
        if j == c {
            self.size(c + 1) + self.size(c + 2) + self.size(c + 3)
        } else if j == c + 1 {
            self.size(c + 2) + self.size(c + 3)
        } else if j == c + 2 {
            self.size(c + 3)
        } else {
            0
        }
    }

    /// The number of nodes that follow the last node of `path` and what lies
    /// below it.
    pub open spec fn pending(self, path: Seq<int>) -> nat
        decreases path.len(),
    {
        if path.len() <= 1 {
            0
        } else {
            let c = self.nodes@[path[path.len() - 2]].children as int;
            self.rest_size(path.last(), c) + self.pending(path.drop_last())
        }
    }

    /// A path without its last node is a path.
    pub proof fn lemma_path_up(self, path: Seq<int>, pos: Vec2)
        requires
            self.on_path(path, pos),
            path.len() > 1,
        ensures
            self.on_path(path.drop_last(), pos),
            path.drop_last().last() == path[path.len() - 2],
            self.opened(path[path.len() - 2], pos),
            ({
                let c = self.nodes@[path[path.len() - 2]].children;
                c <= path.last() <= c + 3
            }),
    {
        let up = path.drop_last();
        assert(self.hop(path, path.len() - 2, pos));
        assert forall|i: int| 0 <= i < up.len() - 1 implies #[trigger] self.hop(up, i, pos) by {
            assert(up[i] == path[i] && up[i + 1] == path[i + 1]);
            assert(self.hop(path, i, pos));
        }
    }

    /// A path goes on to a child of its last node, if that node is opened.
    pub proof fn lemma_path_down(self, path: Seq<int>, pos: Vec2, child: int)
        requires
            self.on_path(path, pos),
            self.opened(path.last(), pos),
            self.nodes@[path.last()].children <= child <= self.nodes@[path.last()].children + 3,
        ensures
            self.on_path(path.push(child), pos),
            path.push(child).drop_last() == path,
            path.push(child).last() == child,
            path.push(child)[path.push(child).len() - 2] == path.last(),
    {
        let down = path.push(child);
        assert(down.drop_last() =~= path);
        assert forall|i: int| 0 <= i < down.len() - 1 implies #[trigger] self.hop(down, i, pos) by {
            assert(down[i] == path[i]);
            if i < path.len() - 1 {
                assert(self.hop(path, i, pos));
                assert(down[i + 1] == path[i + 1]);
            }
        }
    }

    /// Where the children of an opened node lead: each to the next, the
    /// last to where the node itself leads.
    pub proof fn lemma_sibling_links(self, par: int, pos: Vec2)
        requires
            self.shape(),
            self.opened(par, pos),
        ensures
            ({
                let c = self.nodes@[par].children as int;
                &&& self.nodes@[c].next == c + 1
                &&& self.nodes@[c + 1].next == c + 2
                &&& self.nodes@[c + 2].next == c + 3
                &&& self.nodes@[c + 3].next == self.nodes@[par].next
            }),
    {
        assert(self.link_wf(par));
        assert(self.slot_wf(self.nodes@[par].children as int / 4));
    }

    /// Following `next` from the last node of `path` leads to the node with
    /// which the rest of the evaluation starts, or to index 0 when nothing
    /// is left.
    pub proof fn lemma_advance(self, path: Seq<int>, pos: Vec2, acc: Tally) -> (onward: Seq<int>)
        requires
            self.shape(),
            self.on_path(path, pos),
            0 <= path.last() < self.nodes@.len(),
        ensures
            self.nodes@[path.last()].next == 0 ==> self.resume(path, pos, acc) == acc,
            self.nodes@[path.last()].next != 0 ==> {
                let next = self.nodes@[path.last()].next as int;
                &&& self.on_path(onward, pos)
                &&& onward.last() == next
                &&& 0 <= next < self.nodes@.len()
                &&& self.resume(path, pos, acc) == self.resume(onward, pos, self.walk(next, pos, acc))
                &&& self.pending(path) == self.size(next) + self.pending(onward)
            },
        decreases path.len(),
    {
        if path.len() <= 1 {
            assert(path.last() == path[0]);
            path
        } else {
            let j = path.last();
            let up = path.drop_last();
            let par = path[path.len() - 2];
            let c = self.nodes@[par].children as int;
            self.lemma_path_up(path, pos);
            self.lemma_sibling_links(par, pos);
            assert(self.resume(path, pos, acc) == self.resume(up, pos, self.walk_rest(j, c, pos, acc)));
            assert(self.pending(path) == self.rest_size(j, c) + self.pending(up));
            if j < c + 3 {
                let onward = up.push(j + 1);
                self.lemma_path_down(up, pos, j + 1);
                let then = self.walk(j + 1, pos, acc);
                assert(self.resume(onward, pos, then) == self.resume(
                    up,
                    pos,
                    self.walk_rest(j + 1, c, pos, then),
                ));
                assert(self.walk_rest(j, c, pos, acc) == self.walk_rest(j + 1, c, pos, then));
                assert(self.pending(onward) == self.rest_size(j + 1, c) + self.pending(up));
                assert(self.rest_size(j, c) == self.size(j + 1) + self.rest_size(j + 1, c));
                onward
            } else {
                assert(self.walk_rest(j, c, pos, acc) == acc);
                assert(self.rest_size(j, c) == 0);
                self.lemma_advance(up, pos, acc)
            }
        }
    }

    /// The evaluation depends on the nodes, the threshold and the softening
    /// length alone.
    pub proof fn lemma_walk_frame(self, other: Quadtree, j: int, pos: Vec2, acc: Tally)
        requires
            other.nodes@ == self.nodes@,
            other.t_sq == self.t_sq,
            other.e_sq == self.e_sq,
        ensures
            other.walk(j, pos, acc) == self.walk(j, pos, acc),
        decreases self.nodes@.len() - j,
    {
        if self.opened(j, pos) {
            let c = self.nodes@[j].children as int;
            let a1 = self.walk(c, pos, acc);
            let a2 = self.walk(c + 1, pos, a1);
            let a3 = self.walk(c + 2, pos, a2);
            self.lemma_walk_frame(other, c, pos, acc);
            self.lemma_walk_frame(other, c + 1, pos, a1);
            self.lemma_walk_frame(other, c + 2, pos, a2);
            self.lemma_walk_frame(other, c + 3, pos, a3);
        }
    }
}

} // verus!
