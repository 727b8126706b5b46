use electrosim::body::Body;
use electrosim::fixed::ONE;
use electrosim::plate::Plate;
use electrosim::simulation::{apply_plate, falloff, get_new_pos_clip, on_plate, Simulation};
use electrosim::utils::two_body;
use electrosim::vec2::Vec2;

fn at(x: i32, y: i32) -> Vec2 {
    Vec2::new(x * ONE, y * ONE)
}

fn no_field(_u: i64, _v: i64) -> Option<i64> {
    Some(0)
}

fn pushed(pos: Vec2, efield: Vec2) -> Body {
    Body { pos, efield, radius: ONE, resist: ONE }
}

#[test]
fn new_body_is_at_rest_and_moves_freely() {
    let body = Body::new(at(3, -4), 2 * ONE);
    assert_eq!(body.pos, at(3, -4));
    assert_eq!(body.efield, Vec2::zero());
    assert_eq!(body.radius, 2 * ONE);
    assert_eq!(body.resist, ONE);
}

#[test]
fn new_position_is_field_times_step_times_resistance() {
    let mut body = pushed(at(1, 1), Vec2::new(ONE / 2, -ONE));
    assert_eq!(body.get_new_pos(ONE), Vec2::new(3 * ONE / 2, 0));
    assert_eq!(body.get_new_pos(2 * ONE), Vec2::new(2 * ONE, -ONE));
    body.resist = ONE / 4;
    assert_eq!(body.get_new_pos(2 * ONE), Vec2::new(5 * ONE / 4, ONE / 2));
    assert_eq!(body.get_new_pos(0), at(1, 1));
}

#[test]
fn new_position_saturates() {
    let body = pushed(Vec2::new(i32::MAX - 5, i32::MIN + 5), Vec2::new(ONE, -ONE));
    assert_eq!(body.get_new_pos(ONE), Vec2::new(i32::MAX, i32::MIN));
}

#[test]
fn new_simulation_has_the_default_parameters() {
    let sim = Simulation::new();
    assert_eq!(sim.dt, ONE);
    assert_eq!(sim.frame, 0);
    assert!(sim.bodies.is_empty());
    assert!(sim.plates.is_empty());
    assert_eq!(sim.qe, -ONE);
    assert_eq!(sim.qp, ONE);
    assert_eq!(sim.quadtree.t_sq, 49_152 * 49_152);
    assert_eq!(sim.quadtree.e_sq, 1 << 32);
    assert!(sim.quadtree.nodes.is_empty());
}

#[test]
fn on_plate_means_strictly_inside_some_plate() {
    let plates = vec![Plate::new(at(0, 0), at(10, 10)), Plate::new(at(20, 0), at(30, 10))];
    assert!(on_plate(at(5, 5), &plates));
    assert!(on_plate(at(25, 5), &plates));
    assert!(!on_plate(at(15, 5), &plates));
    assert!(!on_plate(at(10, 5), &plates));
    assert!(!on_plate(at(5, 5), &Vec::new()));
}

#[test]
fn a_body_leaving_through_a_corner_stays() {
    let plates = vec![Plate::new(at(0, 0), at(10, 10))];
    let body = pushed(at(9, 9), at(2, 2));
    assert_eq!(get_new_pos_clip(&body, &plates, ONE), at(9, 9));
    let body = pushed(at(1, 1), at(-1, -1));
    assert_eq!(get_new_pos_clip(&body, &plates, ONE), at(1, 1));
}

#[test]
fn a_body_leaving_through_a_side_slides_along_it() {
    let plates = vec![Plate::new(at(0, 0), at(10, 10))];
    // x would leave, y stays inside: the body moves along y alone
    let body = pushed(at(9, 5), at(2, 1));
    assert_eq!(get_new_pos_clip(&body, &plates, ONE), at(9, 6));
    // y would leave, x stays inside: the body moves along x alone
    let body = pushed(at(5, 9), at(1, 2));
    assert_eq!(get_new_pos_clip(&body, &plates, ONE), at(6, 9));
}

#[test]
fn a_body_staying_inside_moves_freely() {
    let plates = vec![Plate::new(at(0, 0), at(10, 10))];
    let body = pushed(at(5, 5), at(2, -3));
    assert_eq!(get_new_pos_clip(&body, &plates, ONE), at(7, 2));
}

#[test]
fn a_body_outside_all_plates_moves_freely() {
    let plates = vec![Plate::new(at(0, 0), at(10, 10))];
    let body = pushed(at(20, 20), at(3, 4));
    assert_eq!(get_new_pos_clip(&body, &plates, ONE), at(23, 24));
    assert_eq!(get_new_pos_clip(&body, &Vec::new(), ONE), at(23, 24));
    // from the border, which is not inside
    let body = pushed(at(10, 5), at(3, 0));
    assert_eq!(get_new_pos_clip(&body, &plates, ONE), at(13, 5));
}

#[test]
fn a_body_may_enter_a_plate() {
    let plates = vec![Plate::new(at(0, 0), at(10, 10))];
    let body = pushed(at(-1, 5), at(2, 0));
    assert_eq!(get_new_pos_clip(&body, &plates, ONE), at(1, 5));
    // its step goes past the plate, but along x alone it lands inside
    let body = pushed(at(-1, 5), at(2, 20));
    assert_eq!(get_new_pos_clip(&body, &plates, ONE), at(1, 5));
}

#[test]
fn the_move_along_y_is_tried_before_the_move_along_x() {
    // from (5, 5) the step to (25, 25) lands in no plate; (5, 25) and (25, 5) both do
    let plates = vec![
        Plate::new(at(20, 0), at(30, 10)),
        Plate::new(at(0, 20), at(10, 30)),
    ];
    let body = pushed(at(5, 5), at(20, 20));
    assert_eq!(get_new_pos_clip(&body, &plates, ONE), at(5, 25));
}

#[test]
fn a_body_may_cross_into_another_plate() {
    let plates = vec![Plate::new(at(0, 0), at(10, 10)), Plate::new(at(12, 0), at(20, 10))];
    let body = pushed(at(9, 5), at(4, 0));
    assert_eq!(get_new_pos_clip(&body, &plates, ONE), at(13, 5));
}

#[test]
fn falloff_is_full_midway_and_nothing_at_the_edges() {
    assert_eq!(falloff(0, 20 * ONE, 10 * ONE), ONE);
    assert_eq!(falloff(0, 20 * ONE, 5 * ONE), ONE / 2);
    assert_eq!(falloff(0, 20 * ONE, 15 * ONE), ONE / 2);
    assert_eq!(falloff(0, 20 * ONE, 0), 0);
    assert_eq!(falloff(0, 20 * ONE, 20 * ONE), 0);
    assert_eq!(falloff(-3, 0, -1), 43_691);
    assert_eq!(falloff(0, 20 * ONE, 30 * ONE), -ONE);
    assert_eq!(falloff(i32::MIN, i32::MAX, 0), ONE);
}

#[test]
fn a_plate_adds_its_field_at_the_plate_scale() {
    let plate = Plate::new(at(0, 0), at(20, 10));
    let mut body = pushed(at(30, 5), Vec2::new(100, 200));
    body.resist = ONE / 2;
    apply_plate(&mut body, &plate, Vec2::new(1000, -2000), ONE / 2);
    assert_eq!(body.efield, Vec2::new(600, -800));
    assert_eq!(body.resist, ONE / 2);
    assert_eq!(body.pos, at(30, 5));
}

#[test]
fn a_battery_drives_the_bodies_inside_it() {
    let mut plate = Plate::new(at(0, 0), at(20, 10));
    plate.make_battery(ONE);
    let mut body = pushed(at(10, 5), Vec2::zero());
    apply_plate(&mut body, &plate, Vec2::zero(), ONE);
    assert_eq!(body.efield, Vec2::new(ONE, 0));
    let mut body = pushed(at(5, 1), Vec2::new(10, 10));
    apply_plate(&mut body, &plate, Vec2::zero(), ONE);
    assert_eq!(body.efield, Vec2::new(ONE / 2 + 10, 10));
    // on the border the body does not feel the battery
    let mut body = pushed(at(0, 5), Vec2::new(10, 10));
    apply_plate(&mut body, &plate, Vec2::zero(), ONE);
    assert_eq!(body.efield, Vec2::new(10, 10));
    let mut body = pushed(at(10, 10), Vec2::new(10, 10));
    apply_plate(&mut body, &plate, Vec2::zero(), ONE);
    assert_eq!(body.efield, Vec2::new(10, 10));
}

#[test]
fn a_square_battery_drives_along_y_with_falloff() {
    let mut plate = Plate::new(at(0, 0), at(10, 10));
    plate.make_battery(2 * ONE);
    let mut body = pushed(Vec2::new(5 * ONE, 5 * ONE / 2), Vec2::zero());
    apply_plate(&mut body, &plate, Vec2::zero(), ONE);
    assert_eq!(body.efield, Vec2::new(0, ONE));
}

#[test]
fn a_resistor_slows_the_bodies_inside_it() {
    let mut plate = Plate::new(at(0, 0), at(20, 10));
    plate.make_resistor(ONE / 4);
    let mut inside = pushed(at(10, 5), Vec2::new(7, 7));
    apply_plate(&mut inside, &plate, Vec2::zero(), ONE);
    assert_eq!(inside.resist, ONE / 4);
    assert_eq!(inside.efield, Vec2::new(7, 7));
    let mut outside = pushed(at(30, 5), Vec2::new(7, 7));
    apply_plate(&mut outside, &plate, Vec2::zero(), ONE);
    assert_eq!(outside.resist, ONE);
    // a body on the border is slowed too
    let mut touching = pushed(at(20, 10), Vec2::new(7, 7));
    apply_plate(&mut touching, &plate, Vec2::zero(), ONE);
    assert_eq!(touching.resist, ONE / 4);
    let mut beyond = pushed(Vec2::new(20 * ONE + 1, 10 * ONE), Vec2::new(7, 7));
    apply_plate(&mut beyond, &plate, Vec2::zero(), ONE);
    assert_eq!(beyond.resist, ONE);
}

#[test]
fn refresh_takes_over_pending_objects() {
    let mut sim = Simulation::new();
    sim.bodies = two_body();
    let pending = (vec![Body::new(at(1, 2), ONE)], vec![Plate::new(at(0, 0), at(1, 1))]);
    let back = sim.refresh_objects(Some(pending));
    assert_eq!(sim.bodies, vec![Body::new(at(1, 2), ONE)]);
    assert_eq!(sim.plates.len(), 1);
    assert_eq!(sim.frame, 0);
    let (bodies, plates) = back.unwrap();
    assert_eq!(bodies, two_body());
    assert!(plates.is_empty());
}

#[test]
fn refresh_without_pending_objects_changes_nothing() {
    let mut sim = Simulation::new();
    sim.bodies = two_body();
    assert!(sim.refresh_objects(None).is_none());
    assert_eq!(sim.bodies, two_body());
    assert!(sim.plates.is_empty());
}

#[test]
fn plate_fields_has_one_field_for_every_body_and_plate() {
    let mut sim = Simulation::new();
    sim.bodies = vec![Body::new(at(1, 1), ONE), Body::new(at(2, 2), ONE), Body::new(at(3, 3), ONE)];
    sim.plates = vec![Plate::new(at(-1, -2), at(3, 4)), Plate::new(at(0, 0), at(1, 1))];
    let skew = |u: i64, v: i64| Some(u / 65536 * v / 65536 * (u / 65536 + 2));
    let fields = sim.plate_fields(&skew);
    assert_eq!(fields.len(), 3);
    for i in 0..3 {
        assert_eq!(fields[i].len(), 2);
        for j in 0..2 {
            assert_eq!(fields[i][j], sim.plates[j].efield_at(sim.bodies[i].pos, &skew));
        }
    }
    assert_eq!(fields[0][0], Vec2::new(24, 24));
}

#[test]
fn attract_without_bodies_does_nothing() {
    let mut sim = Simulation::new();
    sim.plates = vec![Plate::new(at(0, 0), at(1, 1))];
    sim.attract(&Vec::new());
    assert!(sim.quadtree.nodes.is_empty());
    assert!(sim.bodies.is_empty());
}

#[test]
fn attract_sums_tree_and_plates() {
    let mut sim = Simulation::new();
    sim.bodies = two_body();
    let mut battery = Plate::new(at(0, -5), at(20, 5));
    battery.make_battery(ONE);
    let mut resistor = Plate::new(at(-20, -10), at(0, 10));
    resistor.make_resistor(ONE / 4);
    sim.plates = vec![battery, resistor];
    sim.qp = ONE / 2;
    let fields = vec![
        vec![Vec2::new(100, 0), Vec2::new(0, 50)],
        vec![Vec2::new(0, 0), Vec2::new(-30, 10)],
    ];
    sim.attract(&fields);
    // body 0: tree 6488 * -1, plates (100, 50) / 2, battery 1 * (1 - 5 / 10)
    assert_eq!(sim.bodies[0].efield, Vec2::new(-6488 + 50 + ONE / 2, 25));
    assert_eq!(sim.bodies[0].resist, ONE);
    // body 1: tree -6488 * -1, plates (-30, 10) / 2, in the resistor
    assert_eq!(sim.bodies[1].efield, Vec2::new(6488 - 15, 5));
    assert_eq!(sim.bodies[1].resist, ONE / 4);
    assert_eq!(sim.bodies[0].pos, at(5, 0));
    assert_eq!(sim.quadtree.nodes[0].charge, 2);
    assert_eq!(sim.quadtree.nodes[0].pos, at(0, 0));
    assert_eq!(sim.quadtree.nodes[0].quad.size, 10 * ONE as u32);
    // each query opens the root and evaluates its four children
    assert_eq!(sim.quadtree.calcs, 8);
}

#[test]
fn the_last_plate_around_a_body_sets_its_resistance() {
    let mut sim = Simulation::new();
    sim.bodies = vec![Body::new(at(5, 5), ONE)];
    let mut first = Plate::new(at(0, 0), at(10, 10));
    first.make_resistor(ONE / 2);
    let mut second = Plate::new(at(4, 4), at(6, 6));
    second.make_resistor(ONE / 8);
    sim.plates = vec![first, second];
    sim.attract(&vec![vec![Vec2::zero(), Vec2::zero()]]);
    assert_eq!(sim.bodies[0].resist, ONE / 8);
    sim.plates = vec![second, first];
    sim.attract(&vec![vec![Vec2::zero(), Vec2::zero()]]);
    assert_eq!(sim.bodies[0].resist, ONE / 2);
}

#[test]
fn iterate_moves_every_body() {
    let mut sim = Simulation::new();
    sim.bodies = vec![pushed(at(9, 9), at(2, 2)), pushed(at(20, 20), at(1, -1)), pushed(at(9, 5), at(2, 1))];
    sim.plates = vec![Plate::new(at(0, 0), at(10, 10))];
    sim.dt = ONE / 2;
    sim.iterate();
    assert_eq!(sim.bodies[0].pos, at(9, 9));
    assert_eq!(sim.bodies[1].pos, Vec2::new(41 * ONE / 2, 39 * ONE / 2));
    assert_eq!(sim.bodies[2].pos, Vec2::new(9 * ONE, 11 * ONE / 2));
    assert_eq!(sim.bodies[0].efield, at(2, 2));
    assert_eq!(sim.frame, 0);
}

#[test]
fn two_bodies_step_toward_each_other() {
    let mut sim = Simulation::new();
    sim.bodies = two_body();
    assert!(sim.step(None, &no_field).is_none());
    assert_eq!(sim.frame, 1);
    // 10 / (10 * 10 + 1) = 0.0990..., which is 6488 raw, turned around by the scale of -1
    assert_eq!(sim.bodies[0].efield, Vec2::new(-6488, 0));
    assert_eq!(sim.bodies[1].efield, Vec2::new(6488, 0));
    assert_eq!(sim.bodies[0].pos, Vec2::new(5 * ONE - 6488, 0));
    assert_eq!(sim.bodies[1].pos, Vec2::new(-5 * ONE + 6488, 0));
    assert_eq!(sim.bodies[0].pos.x, -sim.bodies[1].pos.x);
    assert_eq!(sim.quadtree.nodes[0].charge, 2);
}

#[test]
fn two_bodies_stay_symmetric_over_many_steps() {
    let mut sim = Simulation::new();
    sim.bodies = two_body();
    for frame in 1..=50 {
        sim.step(None, &no_field);
        assert_eq!(sim.frame, frame);
        assert_eq!(sim.bodies[0].pos.x, -sim.bodies[1].pos.x);
        assert_eq!(sim.bodies[0].pos.y, 0);
        assert_eq!(sim.bodies[1].pos.y, 0);
    }
}

#[test]
fn a_step_without_bodies_only_counts_the_frame() {
    let mut sim = Simulation::new();
    sim.plates = vec![Plate::new(at(0, 0), at(1, 1))];
    sim.step(None, &no_field);
    assert_eq!(sim.frame, 1);
    assert!(sim.bodies.is_empty());
    assert!(sim.quadtree.nodes.is_empty());
    sim.frame = usize::MAX;
    sim.step(None, &no_field);
    assert_eq!(sim.frame, 0);
}

#[test]
fn a_step_takes_over_pending_objects_first() {
    let mut sim = Simulation::new();
    sim.bodies = vec![Body::new(at(100, 100), ONE)];
    let back = sim.step(Some((two_body(), Vec::new())), &no_field);
    assert_eq!(back.unwrap().0, vec![Body::new(at(100, 100), ONE)]);
    assert_eq!(sim.bodies.len(), 2);
    assert_eq!(sim.bodies[0].pos, Vec2::new(5 * ONE - 6488, 0));
}

#[test]
fn a_step_keeps_a_body_inside_its_plate() {
    let mut sim = Simulation::new();
    // two bodies near opposite corners of a small plate push each other out
    sim.bodies = vec![Body::new(Vec2::new(100, 100), ONE), Body::new(Vec2::new(65_436, 65_436), ONE)];
    sim.plates = vec![Plate::new(Vec2::new(0, 0), Vec2::new(65_536, 65_536))];
    sim.qe = 100 * ONE;
    sim.step(None, &no_field);
    assert!(sim.bodies[0].efield.x < -100 && sim.bodies[0].efield.y < -100);
    assert!(sim.bodies[1].efield.x > 100 && sim.bodies[1].efield.y > 100);
    assert_eq!(sim.bodies[0].pos, Vec2::new(100, 100));
    assert_eq!(sim.bodies[1].pos, Vec2::new(65_436, 65_436));
}
