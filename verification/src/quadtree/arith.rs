//! Arithmetic facts behind the quotients and means of the tree.

use vstd::prelude::*;
use crate::fixed::trunc_div;
use crate::quadtree::{Node, Quadtree, Weight};

verus! {

/// A quotient is at least the factor by which the dividend exceeds the divisor.
pub proof fn lemma_div_at_least(a: int, b: int, k: int)
    by (nonlinear_arith)
    requires
        b > 0,
        k >= 0,
        a >= b * k,
    ensures
        a / b >= k,
{
}

/// A quotient is below the factor by which the dividend stays under the divisor.
pub proof fn lemma_div_below(a: int, b: int, k: int)
    by (nonlinear_arith)
    requires
        b > 0,
        0 <= a < b * k,
    ensures
        0 <= a / b < k,
{
}

/// A mean of values between `lo` and `hi`, rounded toward zero, lies between them.
pub proof fn lemma_mean_in_range(s: int, q: int, lo: int, hi: int)
    requires
        q > 0,
        lo <= 0 <= hi,
        lo * q <= s <= hi * q,
    ensures
        lo <= trunc_div(s, q) <= hi,
{
    if s >= 0 {
        assert(0 <= s / q <= hi) by (nonlinear_arith)
            requires
                q > 0,
                0 <= s <= hi * q,
        ;
    } else {
        assert((-lo) * q == -(lo * q)) by (nonlinear_arith);
        assert(0 <= (-s) / q <= -lo) by (nonlinear_arith)
            requires
                q > 0,
                0 <= -s <= (-lo) * q,
        ;
    }
}

/// A coordinate times a charge stays within the charge times the ends of
/// the coordinate's range.
pub proof fn lemma_moment_bound(v: int, c: int)
    by (nonlinear_arith)
    requires
        i32::MIN <= v <= i32::MAX,
        0 <= c,
    ensures
        i32::MIN * c <= v * c <= i32::MAX * c,
        c * v == v * c,
{
}

/// The mean of the coordinates of four nodes weighted by their charges,
/// rounded toward zero, is a coordinate.
pub proof fn lemma_mean_of_four_in_range(nodes: Seq<Node>, c: int, w: Weight)
    requires
        w is X || w is Y,
        Quadtree::charge_of_four(nodes, c) > 0,
    ensures
        i32::MIN <= trunc_div(
            Quadtree::moment_of_four(nodes, c, w),
            Quadtree::charge_of_four(nodes, c),
        ) <= i32::MAX,
{
    lemma_moment_bound(w.of(nodes[c].pos), nodes[c].charge as int);
    lemma_moment_bound(w.of(nodes[c + 1].pos), nodes[c + 1].charge as int);
    lemma_moment_bound(w.of(nodes[c + 2].pos), nodes[c + 2].charge as int);
    lemma_moment_bound(w.of(nodes[c + 3].pos), nodes[c + 3].charge as int);
    let q = Quadtree::charge_of_four(nodes, c);
    assert(i32::MIN * q == i32::MIN * nodes[c].charge + i32::MIN * nodes[c + 1].charge + i32::MIN
        * nodes[c + 2].charge + i32::MIN * nodes[c + 3].charge);
    assert(i32::MAX * q == i32::MAX * nodes[c].charge + i32::MAX * nodes[c + 1].charge + i32::MAX
        * nodes[c + 2].charge + i32::MAX * nodes[c + 3].charge);
    lemma_mean_in_range(
        Quadtree::moment_of_four(nodes, c, w),
        q,
        i32::MIN as int,
        i32::MAX as int,
    );
}

} // verus!
