//! Sums over the leaves of a tree, and over the tree as it was after fewer
//! splits.

use vstd::prelude::*;
use crate::quadtree::{frontier_sum, term, Node, Quadtree, Weight};

verus! {

/// Sequences that agree on their first `n` nodes have the same sum there.
pub proof fn lemma_sum_agree(a: Seq<Node>, b: Seq<Node>, w: Weight, bound: int, n: int)
    requires
        n <= a.len(),
        n <= b.len(),
        forall|j: int| 0 <= j < n ==> a[j] == b[j],
    ensures
        frontier_sum(a, w, bound, n) == frontier_sum(b, w, bound, n),
    decreases n,
{
    if n > 0 {
        lemma_sum_agree(a, b, w, bound, n - 1);
    }
}

/// Replacing one node changes the sum by the difference of the two terms.
pub proof fn lemma_sum_update(nodes: Seq<Node>, w: Weight, bound: int, n: int, j: int, x: Node)
    requires
        0 <= j < nodes.len(),
        0 <= n <= nodes.len(),
    ensures
        frontier_sum(nodes.update(j, x), w, bound, n) == frontier_sum(nodes, w, bound, n) + if j
            < n {
            term(x, w, bound) - term(nodes[j], w, bound)
        } else {
            0
        },
    decreases n,
{
    if n > 0 {
        lemma_sum_update(nodes, w, bound, n - 1, j, x);
    }
}

/// A sum of charges, each counted at most once, is not negative and is at
/// least each of its terms.
pub proof fn lemma_sum_nonneg(nodes: Seq<Node>, w: Weight, bound: int, n: int, j: int)
    requires
        0 <= n <= nodes.len(),
        w is Unit || w is At,
    ensures
        frontier_sum(nodes, w, bound, n) >= 0,
        0 <= j < n ==> frontier_sum(nodes, w, bound, n) >= term(nodes[j], w, bound),
        term(nodes[j], w, bound) >= 0,
    decreases n,
{
    if n > 0 {
        lemma_sum_nonneg(nodes, w, bound, n - 1, j);
    }
}

impl Quadtree {
    /// A sum in which at most the node `j` counts is the term of that node.
    pub proof fn lemma_sum_single(nodes: Seq<Node>, w: Weight, bound: int, n: int, j: int)
        requires
            0 <= n <= nodes.len(),
            forall|i: int| 0 <= i < n && i != j ==> term(#[trigger] nodes[i], w, bound) == 0,
        ensures
            frontier_sum(nodes, w, bound, n) == if 0 <= j < n {
                term(nodes[j], w, bound)
            } else {
                0
            },
        decreases n,
    {
        if n > 0 {
            Self::lemma_sum_single(nodes, w, bound, n - 1, j);
        }
    }

    /// In a tree no child lies beyond the nodes, so a later cut changes no sum.
    pub proof fn lemma_sum_rebound(self, w: Weight, b1: int, b2: int, n: int)
        requires
            self.shape(),
            0 <= n <= self.nodes@.len() <= b1 <= b2,
        ensures
            frontier_sum(self.nodes@, w, b1, n) == frontier_sum(self.nodes@, w, b2, n),
        decreases n,
    {
        if n > 0 {
            self.lemma_sum_rebound(w, b1, b2, n - 1);
            assert(self.link_wf(n - 1));
        }
    }

    /// Sums over the leaves do not depend on what the branches hold.
    pub proof fn lemma_sum_leaves(self, other: Quadtree, w: Weight, n: int)
        requires
            self.shape(),
            other.nodes@.len() == self.nodes@.len(),
            0 <= n <= self.nodes@.len(),
            forall|j: int|
                0 <= j < self.nodes@.len() ==> {
                    let a = #[trigger] self.nodes@[j];
                    let b = other.nodes@[j];
                    a.children == b.children && (a.children == 0 ==> a == b)
                },
        ensures
            frontier_sum(other.nodes@, w, self.nodes@.len() as int, n) == frontier_sum(
                self.nodes@,
                w,
                self.nodes@.len() as int,
                n,
            ),
        decreases n,
    {
        if n > 0 {
            self.lemma_sum_leaves(other, w, n - 1);
            assert(self.link_wf(n - 1));
            assert(self.nodes@[n - 1].children == other.nodes@[n - 1].children);
        }
    }

    /// The sum over the tree as it was after `k` splits: its first `1 + 4 * k`
    /// nodes, those split later counted as leaves.
    pub open spec fn stage_sum(self, w: Weight, k: int) -> int {
        frontier_sum(self.nodes@, w, 1 + 4 * k, 1 + 4 * k)
    }

    /// Cutting the tree four nodes earlier makes a leaf of the one branch
    /// whose children start at the cut.
    pub proof fn lemma_cut(nodes: Seq<Node>, w: Weight, c: int, p: int, n: int)
        requires
            0 <= n <= nodes.len(),
            c % 4 == 1,
            0 <= p < nodes.len(),
            nodes[p].children == c,
            forall|j: int|
                0 <= j < n ==> {
                    let d = (#[trigger] nodes[j]).children;
                    (d == 0 || d % 4 == 1) && (d == c ==> j == p)
                },
        ensures
            frontier_sum(nodes, w, c, n) == frontier_sum(nodes, w, c + 4, n) + if p < n {
                nodes[p].weighted(w)
            } else {
                0
            },
        decreases n,
    {
        if n > 0 {
            Self::lemma_cut(nodes, w, c, p, n - 1);
            let d = nodes[n - 1].children;
            assert(d == 0 || d % 4 == 1);
        }
    }

    /// The children of a branch are leaves or were split after it.
    pub proof fn lemma_child_links(self, s: int, i: int)
        requires
            self.shape(),
            0 <= s < self.parents@.len(),
            0 <= i < 4,
        ensures
            ({
                let d = self.nodes@[1 + 4 * s + i].children;
                d == 0 || d >= 1 + 4 * (s + 1)
            }),
    {
        let j = 1 + 4 * s + i;
        let d = self.nodes@[j].children as int;
        assert(self.link_wf(j));
        if d != 0 {
            assert(self.slot_wf(d / 4));
        }
    }

    /// Between one split and the next the sum loses the term of the node that
    /// is split and gains those of its four children.
    pub proof fn lemma_stage(self, w: Weight, k: int)
        requires
            self.shape(),
            0 <= k < self.parents@.len(),
        ensures
            self.stage_sum(w, k + 1) == self.stage_sum(w, k) - self.nodes@[self.parents@[k] as int].weighted(
                w,
            ) + Self::moment_of_four(self.nodes@, 1 + 4 * k, w),
    {
        let nodes = self.nodes@;
        let c = 1 + 4 * k;
        let p = self.parents@[k] as int;
        assert(self.slot_wf(k));
        assert forall|j: int| 0 <= j < c implies {
            let d = (#[trigger] nodes[j]).children;
            (d == 0 || d % 4 == 1) && (d == c ==> j == p)
        } by {
            assert(self.link_wf(j));
        }
        Self::lemma_cut(nodes, w, c, p, c);
        self.lemma_child_links(k, 0);
        self.lemma_child_links(k, 1);
        self.lemma_child_links(k, 2);
        self.lemma_child_links(k, 3);
        let b = c + 4;
        assert(frontier_sum(nodes, w, b, c + 1) == frontier_sum(nodes, w, b, c) + term(nodes[c], w, b));
        assert(frontier_sum(nodes, w, b, c + 2) == frontier_sum(nodes, w, b, c + 1) + term(
            nodes[c + 1],
            w,
            b,
        ));
        assert(frontier_sum(nodes, w, b, c + 3) == frontier_sum(nodes, w, b, c + 2) + term(
            nodes[c + 2],
            w,
            b,
        ));
        assert(frontier_sum(nodes, w, b, c + 4) == frontier_sum(nodes, w, b, c + 3) + term(
            nodes[c + 3],
            w,
            b,
        ));
    }
}

} // verus!
