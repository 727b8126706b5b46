use electrosim::body::Body;
use electrosim::fixed::ONE;
use electrosim::plate::PlateType;
use electrosim::utils::{large_plate, random_in_range, three_body, two_body, uniform_rect, NINE_TENTHS};
use electrosim::vec2::Vec2;

fn at(x: i32, y: i32) -> Vec2 {
    Vec2::new(x * ONE, y * ONE)
}

#[test]
fn two_body_preset() {
    assert_eq!(two_body(), vec![Body::new(at(5, 0), ONE), Body::new(at(-5, 0), ONE)]);
}

#[test]
fn three_body_preset() {
    let (bodies, plates) = three_body();
    assert_eq!(
        bodies,
        vec![Body::new(at(5, 0), ONE), Body::new(at(-5, 0), ONE), Body::new(at(0, 5), ONE)]
    );
    assert_eq!(plates.len(), 1);
    assert_eq!(plates[0].min, at(-40, -10));
    assert_eq!(plates[0].max, at(40, 10));
    assert_eq!(plates[0].efield, Vec2::zero());
    assert_eq!(plates[0].resist, ONE);
    assert_eq!(plates[0].plate_type, PlateType::Normal);
}

#[test]
fn random_numbers_stay_below_the_upper_end() {
    for _ in 0..2000 {
        let r = random_in_range(0, 100);
        assert!(0 <= r && r < 100);
        let r = random_in_range(-5 * ONE, -4 * ONE);
        assert!(-5 * ONE <= r && r < -4 * ONE);
        assert_eq!(random_in_range(7, 7), 7);
        assert_eq!(random_in_range(7, 8), 7);
    }
}

#[test]
fn random_numbers_vary() {
    let first = random_in_range(0, i32::MAX);
    let mut differs = false;
    for _ in 0..100 {
        differs |= random_in_range(0, i32::MAX) != first;
    }
    assert!(differs);
}

#[test]
fn uniform_rect_fills_the_rectangle() {
    let bodies = uniform_rect(500, at(-10, 20), at(30, 25), -ONE);
    assert_eq!(bodies.len(), 500);
    for body in &bodies {
        assert!(-10 * ONE <= body.pos.x && body.pos.x < 30 * ONE);
        assert!(20 * ONE <= body.pos.y && body.pos.y < 25 * ONE);
        assert_eq!(body.efield, Vec2::zero());
        assert_eq!(body.radius, ONE);
        assert_eq!(body.resist, ONE);
    }
    let left = bodies.iter().filter(|b| b.pos.x < 10 * ONE).count();
    assert!(150 < left && left < 350);
}

#[test]
fn uniform_rect_starts_the_generator_over() {
    let first = uniform_rect(20, at(0, 0), at(100, 100), -ONE);
    random_in_range(0, 100);
    let second = uniform_rect(20, at(0, 0), at(100, 100), -ONE);
    assert_eq!(first, second);
    assert!(uniform_rect(0, at(0, 0), at(1, 1), 0).is_empty());
}

#[test]
fn large_plate_keeps_the_bodies_off_the_border() {
    let (bodies, plates) = large_plate(200, at(-400, -400), at(400, 400));
    assert_eq!(bodies.len(), 200);
    assert_eq!(plates.len(), 1);
    assert_eq!(plates[0].min, at(-400, -400));
    assert_eq!(plates[0].max, at(400, 400));
    assert_eq!(plates[0].plate_type, PlateType::Normal);
    let inner = at(400, 400).scale(NINE_TENTHS);
    assert_eq!(inner, Vec2::new(23_592_800, 23_592_800));
    for body in &bodies {
        assert!(-inner.x <= body.pos.x && body.pos.x < inner.x);
        assert!(-inner.y <= body.pos.y && body.pos.y < inner.y);
        assert!(plates[0].is_in_plate(body.pos));
    }
}
