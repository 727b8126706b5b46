use electrosim::body::Body;
use electrosim::fixed::ONE;
use electrosim::quadtree::{Node, Quad, Quadtree};
use electrosim::vec2::Vec2;

fn at(x: i32, y: i32) -> Vec2 {
    Vec2::new(x * ONE, y * ONE)
}

fn tree_over(points: &[Vec2], theta: i32, epsilon: i32) -> Quadtree {
    let bodies: Vec<Body> = points.iter().map(|p| Body::new(*p, ONE)).collect();
    let mut tree = Quadtree::new(theta, epsilon);
    tree.clear(Quad::new_containing(&bodies));
    for p in points {
        tree.insert(*p, 1);
    }
    tree.propagate();
    tree
}

fn leaf_charge(tree: &Quadtree) -> u64 {
    tree.nodes.iter().filter(|n| n.is_leaf()).map(|n| n.charge).sum()
}

#[test]
fn new_node_is_an_empty_leaf() {
    let quad = Quad { center: at(1, 2), size: 8 };
    let node = Node::new(7, quad);
    assert_eq!(node.children, 0);
    assert_eq!(node.next, 7);
    assert_eq!(node.pos, Vec2::zero());
    assert_eq!(node.charge, 0);
    assert_eq!(node.quad, quad);
    assert!(node.is_leaf());
    assert!(!node.is_branch());
    assert!(node.is_empty());
}

#[test]
fn new_tree_squares_its_parameters() {
    let tree = Quadtree::new(3 * ONE / 4, ONE);
    assert_eq!(tree.t_sq, 49_152 * 49_152);
    assert_eq!(tree.e_sq, 1 << 32);
    assert!(tree.nodes.is_empty());
    assert!(tree.parents.is_empty());
    assert_eq!(tree.calcs, 0);
    let tree = Quadtree::new(i32::MIN, -ONE);
    assert_eq!(tree.t_sq, 1 << 62);
    assert_eq!(tree.e_sq, 1 << 32);
}

#[test]
fn clear_leaves_one_empty_root() {
    let mut tree = tree_over(&[at(1, 1), at(-1, -1), at(3, 2)], ONE, ONE);
    tree.efield(at(0, 0));
    let quad = Quad { center: at(0, 0), size: 4 * ONE as u32 };
    tree.clear(quad);
    assert_eq!(tree.nodes, vec![Node::new(0, quad)]);
    assert!(tree.parents.is_empty());
    assert_eq!(tree.calcs, 0);
    assert_eq!(tree.t_sq, (ONE as u64) * (ONE as u64));
}

#[test]
fn first_insert_fills_the_root() {
    let mut tree = Quadtree::new(ONE, ONE);
    tree.clear(Quad { center: at(0, 0), size: 4 * ONE as u32 });
    tree.insert(at(1, 1), 3);
    assert_eq!(tree.nodes.len(), 1);
    assert_eq!(tree.nodes[0].pos, at(1, 1));
    assert_eq!(tree.nodes[0].charge, 3);
    assert!(tree.nodes[0].is_leaf());
}

#[test]
fn coincident_inserts_add_up_without_a_split() {
    let mut tree = Quadtree::new(ONE, ONE);
    tree.clear(Quad { center: at(0, 0), size: 4 * ONE as u32 });
    tree.insert(at(1, 1), 1);
    tree.insert(at(1, 1), 1);
    tree.insert(at(1, 1), 5);
    assert_eq!(tree.nodes.len(), 1);
    assert_eq!(tree.nodes[0].pos, at(1, 1));
    assert_eq!(tree.nodes[0].charge, 7);
}

#[test]
fn a_second_position_splits_the_leaf() {
    let mut tree = Quadtree::new(ONE, ONE);
    let quad = Quad { center: at(0, 0), size: 10 * ONE as u32 };
    tree.clear(quad);
    tree.insert(at(5, 0), 1);
    tree.insert(at(-5, 0), 1);
    assert_eq!(tree.nodes.len(), 5);
    assert_eq!(tree.parents, vec![0]);
    assert_eq!(tree.nodes[0].children, 1);
    assert_eq!(tree.nodes[0].next, 0);
    assert_eq!(tree.nodes[1].next, 2);
    assert_eq!(tree.nodes[2].next, 3);
    assert_eq!(tree.nodes[3].next, 4);
    assert_eq!(tree.nodes[4].next, 0);
    for i in 0..4 {
        assert_eq!(tree.nodes[1 + i].quad, quad.into_quadrant(i));
        assert!(tree.nodes[1 + i].is_leaf());
    }
    assert_eq!((tree.nodes[1].pos, tree.nodes[1].charge), (at(-5, 0), 1));
    assert_eq!((tree.nodes[2].pos, tree.nodes[2].charge), (at(5, 0), 1));
    assert!(tree.nodes[3].is_empty());
    assert!(tree.nodes[4].is_empty());
}

#[test]
fn close_positions_split_until_they_part() {
    let mut tree = Quadtree::new(ONE, ONE);
    tree.clear(Quad { center: at(0, 0), size: 16 * ONE as u32 });
    tree.insert(at(1, 1), 1);
    tree.insert(at(3, 3), 1);
    // both lie up and right of (0, 0) and of (4, 4)'s lower left child
    // center (2, 2) parts them
    assert_eq!(tree.parents, vec![0, 4, 5]);
    assert_eq!(tree.nodes.len(), 13);
    assert_eq!(tree.nodes[4].children, 5);
    assert_eq!(tree.nodes[5].children, 9);
    assert_eq!((tree.nodes[9].pos, tree.nodes[9].charge), (at(1, 1), 1));
    assert_eq!((tree.nodes[12].pos, tree.nodes[12].charge), (at(3, 3), 1));
    // the last child leads to where its parent leads
    assert_eq!(tree.nodes[12].next, tree.nodes[5].next);
    assert_eq!(tree.nodes[5].next, 6);
    assert_eq!(tree.nodes[8].next, tree.nodes[4].next);
    assert_eq!(tree.nodes[4].next, 0);
}

#[test]
fn positions_that_cannot_part_share_a_leaf() {
    let mut tree = Quadtree::new(ONE, ONE);
    tree.clear(Quad { center: at(0, 0), size: 0 });
    tree.insert(at(0, 0), 1);
    tree.insert(at(5, 5), 2);
    assert_eq!(tree.nodes.len(), 1);
    assert_eq!(tree.nodes[0].pos, at(0, 0));
    assert_eq!(tree.nodes[0].charge, 3);
}

#[test]
fn splitting_stops_when_the_square_cannot_be_halved() {
    let mut tree = Quadtree::new(ONE, ONE);
    // both positions lie outside the square, up and right of it
    tree.clear(Quad { center: Vec2::new(0, 0), size: 4 });
    tree.insert(Vec2::new(100, 100), 1);
    tree.insert(Vec2::new(200, 200), 1);
    assert_eq!(tree.parents, vec![0, 4]);
    assert_eq!(tree.nodes.len(), 9);
    assert_eq!(tree.nodes[8].quad.size, 1);
    assert_eq!(tree.nodes[8].pos, Vec2::new(100, 100));
    assert_eq!(tree.nodes[8].charge, 2);
    assert_eq!(leaf_charge(&tree), 2);
}

#[test]
fn zero_charge_leaves_a_leaf_empty() {
    let mut tree = Quadtree::new(ONE, ONE);
    tree.clear(Quad { center: at(0, 0), size: 8 * ONE as u32 });
    tree.insert(at(1, 1), 0);
    assert!(tree.nodes[0].is_empty());
    tree.insert(at(-1, -1), 4);
    assert_eq!(tree.nodes.len(), 1);
    assert_eq!((tree.nodes[0].pos, tree.nodes[0].charge), (at(-1, -1), 4));
}

#[test]
fn subdivide_appends_four_empty_leaves() {
    let mut tree = Quadtree::new(ONE, ONE);
    let quad = Quad { center: at(0, 0), size: 8 * ONE as u32 };
    tree.clear(quad);
    let children = tree.subdivide(0);
    assert_eq!(children, 1);
    assert_eq!(tree.nodes.len(), 5);
    assert_eq!(tree.parents, vec![0]);
    assert_eq!(tree.nodes[0].children, 1);
    assert_eq!(tree.nodes[1], Node::new(2, quad.into_quadrant(0)));
    assert_eq!(tree.nodes[2], Node::new(3, quad.into_quadrant(1)));
    assert_eq!(tree.nodes[3], Node::new(4, quad.into_quadrant(2)));
    assert_eq!(tree.nodes[4], Node::new(0, quad.into_quadrant(3)));
}

#[test]
fn root_charge_is_the_number_of_bodies() {
    let mut points = Vec::new();
    for i in 0..40 {
        points.push(Vec2::new((i * 7919) % 1000 * ONE / 10 - 50 * ONE, (i * 104_729) % 997 * ONE / 10));
    }
    let tree = tree_over(&points, 3 * ONE / 4, ONE);
    assert_eq!(tree.nodes[0].charge, 40);
    assert_eq!(leaf_charge(&tree), 40);
    assert_eq!(tree.nodes.len(), 1 + 4 * tree.parents.len());
}

#[test]
fn root_charge_counts_coincident_bodies() {
    let tree = tree_over(&[at(1, 1), at(1, 1), at(-2, 3), at(1, 1), at(-2, 3)], ONE, ONE);
    assert_eq!(tree.nodes[0].charge, 5);
    let at_one: u64 = tree
        .nodes
        .iter()
        .filter(|n| n.is_leaf() && n.pos == at(1, 1))
        .map(|n| n.charge)
        .sum();
    assert_eq!(at_one, 3);
}

#[test]
fn every_branch_holds_the_charge_of_its_children() {
    let mut points = Vec::new();
    for i in 0..25 {
        points.push(Vec2::new((i * 37) % 101 * ONE, (i * 53) % 89 * ONE));
    }
    let tree = tree_over(&points, ONE, ONE);
    for node in &tree.nodes {
        if node.is_branch() {
            let c = node.children;
            let charge: u64 = (0..4).map(|i| tree.nodes[c + i].charge).sum();
            assert_eq!(node.charge, charge);
            assert!(charge >= 2);
            let mx: i128 = (0..4)
                .map(|i| tree.nodes[c + i].pos.x as i128 * tree.nodes[c + i].charge as i128)
                .sum();
            let my: i128 = (0..4)
                .map(|i| tree.nodes[c + i].pos.y as i128 * tree.nodes[c + i].charge as i128)
                .sum();
            assert_eq!(node.pos.x as i128, mx / charge as i128);
            assert_eq!(node.pos.y as i128, my / charge as i128);
        }
    }
}

#[test]
fn root_position_is_the_mean_of_the_bodies() {
    let tree = tree_over(&[at(1, 1), at(3, 1), at(1, 3), at(3, 3)], ONE, ONE);
    assert_eq!(tree.nodes[0].charge, 4);
    assert_eq!(tree.nodes[0].pos, at(2, 2));
}

fn height(tree: &Quadtree, node: usize) -> i64 {
    let n = &tree.nodes[node];
    if n.is_leaf() {
        0
    } else {
        1 + (0..4).map(|i| height(tree, n.children + i)).max().unwrap()
    }
}

#[test]
fn root_position_stays_within_a_unit_per_level_of_the_mean() {
    let mut points = Vec::new();
    for i in 0..60 {
        points.push(Vec2::new((i * 7919) % 2003 - 1000, (i * 104_729) % 1999 - 1000));
    }
    let tree = tree_over(&points, ONE, ONE);
    let n = points.len() as i64;
    let sum_x: i64 = points.iter().map(|p| p.x as i64).sum();
    let sum_y: i64 = points.iter().map(|p| p.y as i64).sum();
    let root = &tree.nodes[0];
    assert_eq!(root.charge, 60);
    let levels = height(&tree, 0);
    assert!(levels >= 3 && levels <= 11);
    assert!((root.pos.x as i64 * n - sum_x).abs() <= levels * n);
    assert!((root.pos.y as i64 * n - sum_y).abs() <= levels * n);
}

#[test]
fn every_charge_is_found_by_a_descent_from_the_root() {
    let mut points = Vec::new();
    for i in 0..40 {
        points.push(Vec2::new((i * 37) % 101 * ONE, (i * 53) % 89 * ONE));
    }
    points.push(points[3]);
    let tree = tree_over(&points, ONE, ONE);
    for (i, p) in points.iter().enumerate() {
        let mut node = 0;
        while tree.nodes[node].is_branch() {
            node = tree.nodes[node].children + tree.nodes[node].quad.find_quadrant(*p);
        }
        assert_eq!(tree.nodes[node].pos, *p);
        assert_eq!(tree.nodes[node].charge, if i == 3 || i == 40 { 2 } else { 1 });
    }
}

#[test]
fn propagate_without_branches_changes_nothing() {
    let mut tree = Quadtree::new(ONE, ONE);
    tree.clear(Quad { center: at(0, 0), size: 8 * ONE as u32 });
    tree.insert(at(1, 2), 3);
    let before = tree.nodes.clone();
    tree.propagate();
    assert_eq!(tree.nodes, before);
}

#[test]
fn field_of_two_equal_charges_cancels_midway() {
    let mut tree = tree_over(&[at(5, 0), at(-5, 0)], 3 * ONE / 4, ONE);
    assert_eq!(tree.efield(at(0, 0)), Vec2::zero());
    // the root is opened, its four children are evaluated
    assert_eq!(tree.calcs, 4);
}

#[test]
fn field_of_one_charge_has_the_softened_strength() {
    let mut tree = tree_over(&[at(-5, 0)], 3 * ONE / 4, ONE);
    // 10 / (10 * 10 + 1 * 1)
    assert_eq!(tree.efield(at(5, 0)), Vec2::new(6488, 0));
    assert_eq!(tree.efield(at(-15, 0)), Vec2::new(-6488, 0));
    assert_eq!(tree.efield(at(-5, 10)), Vec2::new(0, 6488));
    // 3 / (3 * 3 + 4 * 4 + 1) and 4 / (3 * 3 + 4 * 4 + 1)
    assert_eq!(tree.efield(at(-2, 4)), Vec2::new(7561, 10_082));
    assert_eq!(tree.calcs, 4);
}

#[test]
fn field_at_the_charge_itself_is_zero() {
    let mut tree = tree_over(&[at(2, 3)], ONE, ONE);
    assert_eq!(tree.efield(at(2, 3)), Vec2::zero());
    let mut hard = tree_over(&[at(2, 3)], ONE, 0);
    assert_eq!(hard.efield(at(2, 3)), Vec2::zero());
}

#[test]
fn field_without_softening_saturates_close_by() {
    let mut tree = tree_over(&[Vec2::new(0, 0)], ONE, 0);
    // one raw unit away the field would be 65536 * 65536
    assert_eq!(tree.efield(Vec2::new(1, 0)), Vec2::new(i32::MAX, 0));
    assert_eq!(tree.efield(Vec2::new(-1, 0)), Vec2::new(i32::MIN, 0));
    assert_eq!(tree.efield(Vec2::new(0, 4)), Vec2::new(0, 1 << 30));
}

#[test]
fn node_field_scales_with_the_charge() {
    let quad = Quad { center: at(0, 0), size: 0 };
    let node = Node { children: 0, next: 0, pos: at(0, 0), charge: 3, quad };
    // 3 * 10 / 101
    assert_eq!(node.field_at(at(10, 0), 1 << 32), Vec2::new(19_466, 0));
    assert_eq!(node.field_at(at(0, -10), 1 << 32), Vec2::new(0, -19_466));
    let heavy = Node { charge: u64::MAX, ..node };
    assert_eq!(heavy.field_at(at(10, 0), 1 << 32), Vec2::new(i32::MAX, 0));
    assert_eq!(heavy.field_at(at(-10, 0), 1 << 32), Vec2::new(i32::MIN, 0));
}

#[test]
fn fields_of_mirrored_charges_cancel() {
    let quad = Quad { center: at(0, 0), size: 0 };
    let e_sq = 1 << 32;
    for (x, y) in [(5, 0), (3, -4), (-7, 11), (1, 1), (0, 0)] {
        let a = Node { children: 0, next: 0, pos: Vec2::new(x * ONE + 3, y * ONE - 1), charge: 9, quad };
        let b = Node { pos: Vec2::new(200 - a.pos.x, -40 - a.pos.y), ..a };
        let mid = Vec2::new(100, -20);
        assert_eq!(a.field_at(mid, e_sq).plus(b.field_at(mid, e_sq)), Vec2::zero());
        assert_eq!(a.field_at(mid, 0).plus(b.field_at(mid, 0)), Vec2::zero());
    }
}

#[test]
fn a_node_is_far_when_its_side_is_less_than_theta_times_the_distance() {
    let quad = Quad { center: at(0, 0), size: 3 * ONE as u32 };
    let node = Node { children: 1, next: 0, pos: at(0, 0), charge: 1, quad };
    let t_sq = (ONE as u64) * (ONE as u64);
    assert!(!node.is_far(at(3, 0), t_sq));
    assert!(node.is_far(Vec2::new(3 * ONE + 1, 0), t_sq));
    assert!(!node.is_far(at(0, 0), t_sq));
    let half_sq = (ONE as u64 / 2) * (ONE as u64 / 2);
    assert!(!node.is_far(at(6, 0), half_sq));
    assert!(node.is_far(at(0, 7), half_sq));
    assert!(!node.is_far(at(1000, 1000), 0));
    assert!(node.is_far(Vec2::new(i32::MAX, i32::MAX), u64::MAX));
}

#[test]
fn far_clusters_are_taken_as_one_charge() {
    // four bodies around (100, 100), seen from the origin
    let cluster = [at(99, 99), at(101, 99), at(99, 101), at(101, 101)];
    let mut exact = tree_over(&cluster, 0, ONE);
    let mut coarse = tree_over(&cluster, ONE, ONE);
    let far = exact.efield(at(0, 0));
    let near = coarse.efield(at(0, 0));
    assert_eq!(exact.calcs, 4);
    assert_eq!(coarse.calcs, 1);
    // 4 * 100 / (100 * 100 + 100 * 100 + 1) on either axis
    assert_eq!(near, Vec2::new(-1310, -1310));
    assert!((far.x - near.x).abs() <= 4);
    assert!((far.y - near.y).abs() <= 4);
}

#[test]
fn a_larger_threshold_never_visits_more_nodes() {
    let mut points = Vec::new();
    for i in 0..50 {
        points.push(Vec2::new((i * 7919) % 1000 * ONE / 10, (i * 104_729) % 997 * ONE / 10));
    }
    let query = at(-40, 30);
    let mut last = usize::MAX;
    for theta in [0, ONE / 4, ONE / 2, 3 * ONE / 4, ONE, 2 * ONE, 8 * ONE] {
        let mut tree = tree_over(&points, theta, ONE);
        tree.efield(query);
        assert!(tree.calcs <= last);
        last = tree.calcs;
    }
    assert_eq!(last, 1);
}

#[test]
fn a_threshold_of_zero_visits_every_leaf() {
    let mut points = Vec::new();
    for i in 0..30 {
        points.push(Vec2::new((i * 37) % 101 * ONE, (i * 53) % 89 * ONE));
    }
    let mut tree = tree_over(&points, 0, ONE);
    let leaves = tree.nodes.iter().filter(|n| n.is_leaf()).count();
    let field = tree.efield(at(-500, -500));
    assert_eq!(tree.calcs, leaves);
    let mut sum = Vec2::zero();
    for node in tree.nodes.iter().filter(|n| n.is_leaf()) {
        sum = sum.plus(node.field_at(at(-500, -500), tree.e_sq));
    }
    assert_eq!(field, sum);
}

#[test]
fn calcs_add_up_over_queries_and_stop_at_the_top() {
    let mut tree = tree_over(&[at(5, 0), at(-5, 0)], 3 * ONE / 4, ONE);
    tree.efield(at(0, 0));
    tree.efield(at(0, 0));
    assert_eq!(tree.calcs, 8);
    tree.calcs = usize::MAX - 1;
    tree.efield(at(0, 0));
    assert_eq!(tree.calcs, usize::MAX);
}

#[test]
fn efield_leaves_the_nodes_alone() {
    let mut tree = tree_over(&[at(5, 0), at(-5, 0), at(2, 7)], 3 * ONE / 4, ONE);
    let before = tree.nodes.clone();
    tree.efield(at(1, 1));
    assert_eq!(tree.nodes, before);
}
