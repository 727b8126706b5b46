//! Which squares of a tree to draw: the leaves, or the nodes at a range of
//! depths.

use vstd::prelude::*;
use crate::quadtree::{Node, Quadtree};

verus! {

/// Whether every branch lies before its four children, and these within
/// the nodes.
pub open spec fn linked(nodes: Seq<Node>) -> bool {
    forall|j: int|
        0 <= j < nodes.len() ==> {
            let c = (#[trigger] nodes[j]).children;
            c == 0 || (j < c && c + 3 < nodes.len())
        }
}

/// The nodes of a tree are linked.
pub proof fn lemma_shape_linked(tree: Quadtree)
    requires
        tree.shape(),
    ensures
        linked(tree.nodes@),
{
    assert forall|j: int| 0 <= j < tree.nodes@.len() implies {
        let c = (#[trigger] tree.nodes@[j]).children;
        c == 0 || (j < c && c + 3 < tree.nodes@.len())
    } by {
        assert(tree.link_wf(j));
        let c = tree.nodes@[j].children as int;
        if c != 0 {
            assert(tree.slot_wf(c / 4));
        }
    }
}

/// Whether every branch lies before its four children, and these within
/// the nodes.
pub fn is_linked(nodes: &Vec<Node>) -> (r: bool)
    ensures
        r == linked(nodes@),
{
    let mut j: usize = 0;
    while j < nodes.len()
        invariant
            j <= nodes@.len(),
            forall|k: int|
                0 <= k < j ==> {
                    let c = (#[trigger] nodes@[k]).children;
                    c == 0 || (k < c && c + 3 < nodes@.len())
                },
        decreases nodes@.len() - j,
    {
        let c = nodes[j].children;
        if c != 0 && (c <= j || c >= nodes.len() || nodes.len() - c <= 3) {
            return false;
        }
        j += 1;
    }
    true
}

/// Whether node `j` has four children within the nodes.
pub open spec fn forks(nodes: Seq<Node>, j: int) -> bool {
    0 <= j < nodes[j].children && nodes[j].children + 3 < nodes.len()
}

/// The smaller of two numbers.
pub open spec fn lesser(a: int, b: int) -> int {
    if a <= b {
        a
    } else {
        b
    }
}

/// The larger of two numbers.
pub open spec fn greater(a: int, b: int) -> int {
    if a >= b {
        a
    } else {
        b
    }
}

/// The depth of the shallowest leaf at or below node `j`, which lies at
/// depth `d`.
pub open spec fn least_depth(nodes: Seq<Node>, j: int, d: int) -> int
    decreases nodes.len() - j,
{
    if forks(nodes, j) {
        let c = nodes[j].children as int;
        lesser(
            lesser(least_depth(nodes, c, d + 1), least_depth(nodes, c + 1, d + 1)),
            lesser(least_depth(nodes, c + 2, d + 1), least_depth(nodes, c + 3, d + 1)),
        )
    } else {
        d
    }
}

/// The depth of the deepest leaf at or below node `j`, which lies at
/// depth `d`.
pub open spec fn most_depth(nodes: Seq<Node>, j: int, d: int) -> int
    decreases nodes.len() - j,
{
    if forks(nodes, j) {
        let c = nodes[j].children as int;
        greater(
            greater(most_depth(nodes, c, d + 1), most_depth(nodes, c + 1, d + 1)),
            greater(most_depth(nodes, c + 2, d + 1), most_depth(nodes, c + 3, d + 1)),
        )
    } else {
        d
    }
}

/// The number of nodes at and below node `j`.
pub open spec fn count_below(nodes: Seq<Node>, j: int) -> nat
    decreases nodes.len() - j,
{
    if forks(nodes, j) {
        let c = nodes[j].children as int;
        1 + count_below(nodes, c) + count_below(nodes, c + 1) + count_below(nodes, c + 2)
            + count_below(nodes, c + 3)
    } else {
        1
    }
}

/// A node that is still to be looked at, and its depth.
#[derive(Clone, Copy, Debug, PartialEq, Eq, Structural)]
pub struct Cell {
    pub node: usize,
    pub depth: usize,
}

/// The number of nodes at and below the cells of `stack`.
pub open spec fn count_pending(nodes: Seq<Node>, stack: Seq<Cell>) -> nat
    decreases stack.len(),
{
    if stack.len() == 0 {
        0
    } else {
        count_below(nodes, stack.last().node as int) + count_pending(nodes, stack.drop_last())
    }
}

/// The depth of the shallowest leaf at or below the cells of `stack`, or
/// `least` if that is less.
pub open spec fn least_pending(nodes: Seq<Node>, stack: Seq<Cell>, least: int) -> int
    decreases stack.len(),
{
    if stack.len() == 0 {
        least
    } else {
        least_pending(
            nodes,
            stack.drop_last(),
            lesser(least, least_depth(nodes, stack.last().node as int, stack.last().depth as int)),
        )
    }
}

/// The depth of the deepest leaf at or below the cells of `stack`, or
/// `most` if that is more.
pub open spec fn most_pending(nodes: Seq<Node>, stack: Seq<Cell>, most: int) -> int
    decreases stack.len(),
{
    if stack.len() == 0 {
        most
    } else {
        most_pending(
            nodes,
            stack.drop_last(),
            greater(most, most_depth(nodes, stack.last().node as int, stack.last().depth as int)),
        )
    }
}

/// The leaves below a node at depth `d` lie at depths from `d` on, and no
/// deeper than there are nodes after it.
pub proof fn lemma_depth_bounds(nodes: Seq<Node>, j: int, d: int)
    requires
        linked(nodes),
        0 <= j < nodes.len(),
    ensures
        d <= least_depth(nodes, j, d) <= most_depth(nodes, j, d) <= d + nodes.len() - 1 - j,
    decreases nodes.len() - j,
{
    if forks(nodes, j) {
        let c = nodes[j].children as int;
        lemma_depth_bounds(nodes, c, d + 1);
        lemma_depth_bounds(nodes, c + 1, d + 1);
        lemma_depth_bounds(nodes, c + 2, d + 1);
        lemma_depth_bounds(nodes, c + 3, d + 1);
    }
}

/// Whether each cell of `stack` names a node, at a depth that is no more
/// than its index.
pub open spec fn in_tree(nodes: Seq<Node>, stack: Seq<Cell>) -> bool {
    forall|k: int|
        0 <= k < stack.len() ==> (#[trigger] stack[k]).node < nodes.len() && stack[k].depth
            <= stack[k].node
}

/// A stack with the children of a node on top of it, the first child
/// lowest.
pub open spec fn with_children(stack: Seq<Cell>, c: usize, depth: usize) -> Seq<Cell> {
    stack.push(Cell { node: c, depth }).push(Cell { node: (c + 1) as usize, depth }).push(
        Cell { node: (c + 2) as usize, depth },
    ).push(Cell { node: (c + 3) as usize, depth })
}

/// The stack with one more cell on it: what is pending is what the cell
/// adds to what was pending.
pub proof fn lemma_pending_push(nodes: Seq<Node>, stack: Seq<Cell>, cell: Cell, least: int, most: int)
    ensures
        least_pending(nodes, stack.push(cell), least) == least_pending(
            nodes,
            stack,
            lesser(least, least_depth(nodes, cell.node as int, cell.depth as int)),
        ),
        most_pending(nodes, stack.push(cell), most) == most_pending(
            nodes,
            stack,
            greater(most, most_depth(nodes, cell.node as int, cell.depth as int)),
        ),
        count_pending(nodes, stack.push(cell)) == count_below(nodes, cell.node as int)
            + count_pending(nodes, stack),
{
    let next = stack.push(cell);
    assert(next.drop_last() =~= stack);
    assert(next.last() == cell);
}

/// Putting the children of a node on the stack in its place leaves what
/// is pending as it was, less the node itself.
pub proof fn lemma_children_pending(nodes: Seq<Node>, stack: Seq<Cell>, cell: Cell, least: int, most: int)
    requires
        nodes.len() <= usize::MAX,
        forks(nodes, cell.node as int),
        cell.depth < usize::MAX,
    ensures
        ({
            let c = nodes[cell.node as int].children;
            let d = (cell.depth + 1) as usize;
            let next = with_children(stack, c, d);
            &&& least_pending(nodes, next, least) == least_pending(nodes, stack.push(cell), least)
            &&& most_pending(nodes, next, most) == most_pending(nodes, stack.push(cell), most)
            &&& count_pending(nodes, next) + 1 == count_pending(nodes, stack.push(cell))
        }),
{
    let c = nodes[cell.node as int].children;
    let d = (cell.depth + 1) as usize;
    let c0 = Cell { node: c, depth: d };
    let c1 = Cell { node: (c + 1) as usize, depth: d };
    let c2 = Cell { node: (c + 2) as usize, depth: d };
    let c3 = Cell { node: (c + 3) as usize, depth: d };
    let s1 = stack.push(c0);
    let s2 = s1.push(c1);
    let s3 = s2.push(c2);
    let l3 = lesser(least, least_depth(nodes, c + 3, d as int));
    let l2 = lesser(l3, least_depth(nodes, c + 2, d as int));
    let l1 = lesser(l2, least_depth(nodes, c + 1, d as int));
    let m3 = greater(most, most_depth(nodes, c + 3, d as int));
    let m2 = greater(m3, most_depth(nodes, c + 2, d as int));
    let m1 = greater(m2, most_depth(nodes, c + 1, d as int));
    lemma_pending_push(nodes, s3, c3, least, most);
    lemma_pending_push(nodes, s2, c2, l3, m3);
    lemma_pending_push(nodes, s1, c1, l2, m2);
    lemma_pending_push(nodes, stack, c0, l1, m1);
    lemma_pending_push(nodes, stack, cell, least, most);
}

/// The children of a node in the tree are in the tree.
pub proof fn lemma_children_in_tree(nodes: Seq<Node>, stack: Seq<Cell>, cell: Cell)
    requires
        nodes.len() <= usize::MAX,
        in_tree(nodes, stack),
        cell.node < nodes.len(),
        cell.depth <= cell.node,
        forks(nodes, cell.node as int),
    ensures
        in_tree(
            nodes,
            with_children(stack, nodes[cell.node as int].children, (cell.depth + 1) as usize),
        ),
{
    let c = nodes[cell.node as int].children;
    let d = (cell.depth + 1) as usize;
    let next = with_children(stack, c, d);
    assert forall|k: int| 0 <= k < next.len() implies (#[trigger] next[k]).node < nodes.len()
        && next[k].depth <= next[k].node by {
        if k < stack.len() {
            assert(next[k] == stack[k]);
        }
    }
}

/// Puts the children of a node on the stack, the first child lowest.
fn push_children(stack: &mut Vec<Cell>, children: usize, depth: usize)
    requires
        children + 3 <= usize::MAX,
    ensures
        final(stack)@ == with_children(old(stack)@, children, depth),
{
    stack.push(Cell { node: children, depth });
    stack.push(Cell { node: children + 1, depth });
    stack.push(Cell { node: children + 2, depth });
    stack.push(Cell { node: children + 3, depth });
}

/// The depths of the shallowest and of the deepest leaf of the tree.
pub fn leaf_depths(nodes: &Vec<Node>) -> (r: (usize, usize))
    requires
        nodes@.len() > 0,
        linked(nodes@),
    ensures
        r.0 == least_depth(nodes@, 0, 0),
        r.1 == most_depth(nodes@, 0, 0),
{
    let mut stack: Vec<Cell> = Vec::new();
    stack.push(Cell { node: 0, depth: 0 });
    let mut min_depth: usize = usize::MAX;
    let mut max_depth: usize = 0;
    proof {
        assert(nodes@.len() == nodes.len());
        lemma_depth_bounds(nodes@, 0, 0);
        lemma_pending_push(
            nodes@,
            Seq::<Cell>::empty(),
            Cell { node: 0, depth: 0 },
            usize::MAX as int,
            0,
        );
        assert(stack@ =~= Seq::<Cell>::empty().push(Cell { node: 0, depth: 0 }));
    }
    while stack.len() > 0
        invariant
            nodes@.len() <= usize::MAX,
            linked(nodes@),
            in_tree(nodes@, stack@),
            least_pending(nodes@, stack@, min_depth as int) == least_depth(nodes@, 0, 0),
            most_pending(nodes@, stack@, max_depth as int) == most_depth(nodes@, 0, 0),
        decreases count_pending(nodes@, stack@),
    {
        let ghost before = stack@;
        let cell = stack.pop().unwrap();
        let node = nodes[cell.node];
        proof {
            assert(before =~= stack@.push(cell));
            assert(before[before.len() - 1] == cell);
            assert forall|k: int| 0 <= k < stack@.len() implies (#[trigger] stack@[k]).node
                < nodes@.len() && stack@[k].depth <= stack@[k].node by {
                assert(stack@[k] == before[k]);
            }
        }
        proof {
            lemma_pending_push(nodes@, stack@, cell, min_depth as int, max_depth as int);
            assert(nodes@[cell.node as int] == node);
        }
        if node.is_leaf() {
            if cell.depth < min_depth {
                min_depth = cell.depth;
            }
            if cell.depth > max_depth {
                max_depth = cell.depth;
            }
        } else {
            proof {
                assert(forks(nodes@, cell.node as int));
                lemma_children_pending(
                    nodes@,
                    stack@,
                    cell,
                    min_depth as int,
                    max_depth as int,
                );
            }
            proof {
                lemma_children_in_tree(nodes@, stack@, cell);
            }
            push_children(&mut stack, node.children, cell.depth + 1);
        }
    }
    (min_depth, max_depth)
}

/// The range of depths to draw: the one that was chosen, or, if that is
/// empty, from the shallowest leaf to the deepest.
pub fn depth_range(nodes: &Vec<Node>, chosen: (usize, usize)) -> (r: (usize, usize))
    requires
        nodes@.len() > 0,
        linked(nodes@),
    ensures
        r == if chosen.0 >= chosen.1 {
            (least_depth(nodes@, 0, 0) as usize, most_depth(nodes@, 0, 0) as usize)
        } else {
            chosen
        },
{
    if chosen.0 >= chosen.1 {
        leaf_depths(nodes)
    } else {
        chosen
    }
}

/// The cells to draw at and below node `j`, which lies at depth `d`: a
/// branch above the depth `hi` is opened, last child first; any other
/// node is drawn if it lies at the depth `lo` or deeper.
pub open spec fn shown(nodes: Seq<Node>, j: int, d: int, lo: int, hi: int) -> Seq<Cell>
    decreases nodes.len() - j,
{
    if forks(nodes, j) && d < hi {
        let c = nodes[j].children as int;
        shown(nodes, c + 3, d + 1, lo, hi) + shown(nodes, c + 2, d + 1, lo, hi) + shown(
            nodes,
            c + 1,
            d + 1,
            lo,
            hi,
        ) + shown(nodes, c, d + 1, lo, hi)
    } else if d >= lo {
        seq![Cell { node: j as usize, depth: d as usize }]
    } else {
        Seq::empty()
    }
}

/// The cells to draw at and below the cells of `stack`, the top of the
/// stack first.
pub open spec fn shown_pending(nodes: Seq<Node>, stack: Seq<Cell>, lo: int, hi: int) -> Seq<Cell>
    decreases stack.len(),
{
    if stack.len() == 0 {
        Seq::empty()
    } else {
        shown(nodes, stack.last().node as int, stack.last().depth as int, lo, hi) + shown_pending(
            nodes,
            stack.drop_last(),
            lo,
            hi,
        )
    }
}

/// The stack with one more cell on it: the cells to draw are those of
/// the cell and then those that were pending.
pub proof fn lemma_shown_push(nodes: Seq<Node>, stack: Seq<Cell>, cell: Cell, lo: int, hi: int)
    ensures
        shown_pending(nodes, stack.push(cell), lo, hi) == shown(
            nodes,
            cell.node as int,
            cell.depth as int,
            lo,
            hi,
        ) + shown_pending(nodes, stack, lo, hi),
{
    let next = stack.push(cell);
    assert(next.drop_last() =~= stack);
    assert(next.last() == cell);
}

/// Putting the children of an opened node on the stack in its place
/// leaves the cells to draw as they were.
pub proof fn lemma_children_shown(nodes: Seq<Node>, stack: Seq<Cell>, cell: Cell, lo: int, hi: int)
    requires
        nodes.len() <= usize::MAX,
        forks(nodes, cell.node as int),
        cell.depth < hi,
        cell.depth < usize::MAX,
    ensures
        ({
            let c = nodes[cell.node as int].children;
            let d = (cell.depth + 1) as usize;
            shown_pending(nodes, with_children(stack, c, d), lo, hi) == shown_pending(
                nodes,
                stack.push(cell),
                lo,
                hi,
            )
        }),
{
    let c = nodes[cell.node as int].children;
    let d = (cell.depth + 1) as usize;
    let c0 = Cell { node: c, depth: d };
    let c1 = Cell { node: (c + 1) as usize, depth: d };
    let c2 = Cell { node: (c + 2) as usize, depth: d };
    let c3 = Cell { node: (c + 3) as usize, depth: d };
    let s1 = stack.push(c0);
    let s2 = s1.push(c1);
    let s3 = s2.push(c2);
    lemma_shown_push(nodes, s3, c3, lo, hi);
    lemma_shown_push(nodes, s2, c2, lo, hi);
    lemma_shown_push(nodes, s1, c1, lo, hi);
    lemma_shown_push(nodes, stack, c0, lo, hi);
    lemma_shown_push(nodes, stack, cell, lo, hi);
    let rest = shown_pending(nodes, stack, lo, hi);
    let a0 = shown(nodes, c as int, d as int, lo, hi);
    let a1 = shown(nodes, c + 1, d as int, lo, hi);
    let a2 = shown(nodes, c + 2, d as int, lo, hi);
    let a3 = shown(nodes, c + 3, d as int, lo, hi);
    assert(a3 + (a2 + (a1 + (a0 + rest))) =~= (a3 + a2 + a1 + a0) + rest);
}

/// The cells to draw for the depths from `min_depth` to `max_depth`, in
/// the order in which to draw them.
pub fn cells_to_draw(nodes: &Vec<Node>, min_depth: usize, max_depth: usize) -> (cells: Vec<Cell>)
    requires
        nodes@.len() > 0,
        linked(nodes@),
    ensures
        cells@ == shown(nodes@, 0, 0, min_depth as int, max_depth as int),
{
    let ghost lo = min_depth as int;
    let ghost hi = max_depth as int;
    let mut cells: Vec<Cell> = Vec::new();
    let mut stack: Vec<Cell> = Vec::new();
    stack.push(Cell { node: 0, depth: 0 });
    proof {
        assert(nodes@.len() == nodes.len());
        lemma_shown_push(nodes@, Seq::<Cell>::empty(), Cell { node: 0, depth: 0 }, lo, hi);
        assert(stack@ =~= Seq::<Cell>::empty().push(Cell { node: 0, depth: 0 }));
        let all = shown(nodes@, 0, 0, lo, hi);
        assert(cells@ + (all + Seq::<Cell>::empty()) =~= all);
    }
    while stack.len() > 0
        invariant
            nodes@.len() <= usize::MAX,
            lo == min_depth,
            hi == max_depth,
            linked(nodes@),
            in_tree(nodes@, stack@),
            cells@ + shown_pending(nodes@, stack@, lo, hi) == shown(nodes@, 0, 0, lo, hi),
        decreases count_pending(nodes@, stack@),
    {
        let ghost before = stack@;
        let ghost drawn = cells@;
        let cell = stack.pop().unwrap();
        let node = nodes[cell.node];
        proof {
            assert(before =~= stack@.push(cell));
            assert(before[before.len() - 1] == cell);
            assert forall|k: int| 0 <= k < stack@.len() implies (#[trigger] stack@[k]).node
                < nodes@.len() && stack@[k].depth <= stack@[k].node by {
                assert(stack@[k] == before[k]);
            }
        }
        proof {
            lemma_shown_push(nodes@, stack@, cell, lo, hi);
            lemma_pending_push(nodes@, stack@, cell, 0, 0);
            assert(nodes@[cell.node as int] == node);
        }
        if node.is_branch() && cell.depth < max_depth {
            proof {
                assert(forks(nodes@, cell.node as int));
                lemma_children_shown(nodes@, stack@, cell, lo, hi);
                lemma_children_pending(nodes@, stack@, cell, 0, 0);
            }
            proof {
                lemma_children_in_tree(nodes@, stack@, cell);
            }
            push_children(&mut stack, node.children, cell.depth + 1);
        } else if cell.depth >= min_depth {
            cells.push(cell);
            proof {
                let rest = shown_pending(nodes@, stack@, lo, hi);
                assert(shown(nodes@, cell.node as int, cell.depth as int, lo, hi) =~= seq![cell]);
                assert(cells@ + rest =~= drawn + (seq![cell] + rest));
            }
        } else {
            proof {
                let rest = shown_pending(nodes@, stack@, lo, hi);
                let none = shown(nodes@, cell.node as int, cell.depth as int, lo, hi);
                assert(none =~= Seq::<Cell>::empty());
                assert(none + rest =~= rest);
            }
        }
    }
    proof {
        assert(cells@ + Seq::<Cell>::empty() =~= cells@);
    }
    cells
}

} // verus!
