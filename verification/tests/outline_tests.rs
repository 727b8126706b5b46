use electrosim::body::Body;
use electrosim::fixed::ONE;
use electrosim::quadtree::outline::{cells_to_draw, depth_range, is_linked, leaf_depths, Cell};
use electrosim::quadtree::{Node, Quad, Quadtree};
use electrosim::vec2::Vec2;

fn at(x: i32, y: i32) -> Vec2 {
    Vec2::new(x * ONE, y * ONE)
}

fn tree_over(points: &[Vec2]) -> Quadtree {
    let bodies: Vec<Body> = points.iter().map(|p| Body::new(*p, ONE)).collect();
    let mut tree = Quadtree::new(ONE, ONE);
    tree.clear(Quad::new_containing(&bodies));
    for p in points {
        tree.insert(*p, 1);
    }
    tree.propagate();
    tree
}

fn cell(node: usize, depth: usize) -> Cell {
    Cell { node, depth }
}

/// Leaves at depths 1, 2 and 3: the root's last child is split, and the
/// first child of that again.
fn deep_tree() -> Quadtree {
    let mut tree = Quadtree::new(ONE, ONE);
    tree.clear(Quad { center: at(0, 0), size: 16 * ONE as u32 });
    tree.insert(at(1, 1), 1);
    tree.insert(at(3, 3), 1);
    tree
}

#[test]
fn trees_are_linked() {
    assert!(is_linked(&tree_over(&[at(1, 1)]).nodes));
    assert!(is_linked(&deep_tree().nodes));
    assert!(is_linked(&Vec::new()));
}

#[test]
fn broken_links_are_found() {
    let good = deep_tree().nodes;
    let mut nodes = good.clone();
    nodes[4].children = 4;
    assert!(!is_linked(&nodes));
    let mut nodes = good.clone();
    nodes[4].children = 3;
    assert!(!is_linked(&nodes));
    let mut nodes = good.clone();
    nodes[5].children = 10;
    assert!(!is_linked(&nodes));
    let mut nodes = good.clone();
    nodes[5].children = usize::MAX;
    assert!(!is_linked(&nodes));
    let mut nodes = good.clone();
    nodes.pop();
    assert!(!is_linked(&nodes));
    let lone = vec![Node { children: 1, ..good[1] }];
    assert!(!is_linked(&lone));
}

#[test]
fn a_single_leaf_lies_at_depth_zero() {
    let tree = tree_over(&[at(1, 1)]);
    assert_eq!(leaf_depths(&tree.nodes), (0, 0));
    assert_eq!(cells_to_draw(&tree.nodes, 0, 0), vec![cell(0, 0)]);
    assert_eq!(cells_to_draw(&tree.nodes, 0, 5), vec![cell(0, 0)]);
    assert!(cells_to_draw(&tree.nodes, 1, 5).is_empty());
}

#[test]
fn leaf_depths_span_the_tree() {
    assert_eq!(leaf_depths(&tree_over(&[at(5, 0), at(-5, 0)]).nodes), (1, 1));
    assert_eq!(leaf_depths(&deep_tree().nodes), (1, 3));
}

#[test]
fn an_empty_range_means_all_the_leaves() {
    let tree = deep_tree();
    assert_eq!(depth_range(&tree.nodes, (0, 0)), (1, 3));
    assert_eq!(depth_range(&tree.nodes, (2, 2)), (1, 3));
    assert_eq!(depth_range(&tree.nodes, (5, 1)), (1, 3));
    assert_eq!(depth_range(&tree.nodes, (0, 1)), (0, 1));
    assert_eq!(depth_range(&tree.nodes, (2, 9)), (2, 9));
}

#[test]
fn cells_come_last_child_first() {
    let tree = deep_tree();
    // nodes 1..=4 below the root, 5..=8 below node 4, 9..=12 below node 5
    assert_eq!(
        cells_to_draw(&tree.nodes, 1, 3),
        vec![
            cell(8, 2),
            cell(7, 2),
            cell(6, 2),
            cell(12, 3),
            cell(11, 3),
            cell(10, 3),
            cell(9, 3),
            cell(3, 1),
            cell(2, 1),
            cell(1, 1),
        ]
    );
}

#[test]
fn branches_at_the_far_depth_are_drawn_whole() {
    let tree = deep_tree();
    assert_eq!(cells_to_draw(&tree.nodes, 0, 0), vec![cell(0, 0)]);
    assert_eq!(
        cells_to_draw(&tree.nodes, 0, 1),
        vec![cell(4, 1), cell(3, 1), cell(2, 1), cell(1, 1)]
    );
    assert_eq!(
        cells_to_draw(&tree.nodes, 2, 2),
        vec![cell(8, 2), cell(7, 2), cell(6, 2), cell(5, 2)]
    );
    assert_eq!(
        cells_to_draw(&tree.nodes, 3, 9),
        vec![cell(12, 3), cell(11, 3), cell(10, 3), cell(9, 3)]
    );
    assert!(cells_to_draw(&tree.nodes, 4, 9).is_empty());
}

#[test]
fn every_leaf_is_drawn_once_over_its_whole_range() {
    let mut points = Vec::new();
    for i in 0..40 {
        points.push(Vec2::new((i * 37) % 101 * ONE, (i * 53) % 89 * ONE));
    }
    let tree = tree_over(&points);
    let (least, most) = leaf_depths(&tree.nodes);
    assert!(least >= 1 && least < most);
    let cells = cells_to_draw(&tree.nodes, least, most);
    let leaves = tree.nodes.iter().filter(|n| n.is_leaf()).count();
    assert_eq!(cells.len(), leaves);
    let mut seen = vec![false; tree.nodes.len()];
    for c in &cells {
        assert!(tree.nodes[c.node].is_leaf());
        assert!(least <= c.depth && c.depth <= most);
        assert!(!seen[c.node]);
        seen[c.node] = true;
    }
    assert!(cells.iter().any(|c| c.depth == least));
    assert!(cells.iter().any(|c| c.depth == most));
}
