use electrosim::fixed::ONE;
use electrosim::plate::{EdgeIntegrals, Offsets, Plate, PlateType};
use electrosim::vec2::Vec2;

fn at(x: i32, y: i32) -> Vec2 {
    Vec2::new(x * ONE, y * ONE)
}

/// `u / 2 * ln(u * u + v * v) + v * atan(u / v)` on fixed-point offsets.
fn kernel(u: i64, v: i64) -> Option<i64> {
    let (u, v) = (u as f64 / 65536.0, v as f64 / 65536.0);
    let k = 0.5 * u * (u * u + v * v).ln() + v * (u / v).atan();
    if k.is_finite() {
        Some((k * 65536.0).round() as i64)
    } else {
        None
    }
}

fn all(value: i64) -> EdgeIntegrals {
    EdgeIntegrals {
        xac: Some(value),
        xad: Some(value),
        xbc: Some(value),
        xbd: Some(value),
        yca: Some(value),
        ycb: Some(value),
        yda: Some(value),
        ydb: Some(value),
    }
}

#[test]
fn new_plate_is_normal() {
    let plate = Plate::new(at(-40, -10), at(40, 10));
    assert_eq!(plate.min, at(-40, -10));
    assert_eq!(plate.max, at(40, 10));
    assert_eq!(plate.efield, Vec2::zero());
    assert_eq!(plate.resist, ONE);
    assert_eq!(plate.plate_type, PlateType::Normal);
}

#[test]
fn plate_type_names() {
    assert_eq!(PlateType::Normal.name(), "Normal");
    assert_eq!(PlateType::Battery.name(), "Battery");
    assert_eq!(PlateType::Resistor.name(), "Resistor");
    assert_eq!(format!("{:?}", PlateType::Battery), "Battery");
}

#[test]
fn interior_excludes_the_border() {
    let plate = Plate::new(at(0, 0), at(10, 5));
    assert!(plate.is_in_plate(at(5, 2)));
    assert!(plate.is_in_plate(Vec2::new(1, 1)));
    assert!(!plate.is_in_plate(at(0, 2)));
    assert!(!plate.is_in_plate(at(10, 2)));
    assert!(!plate.is_in_plate(at(5, 0)));
    assert!(!plate.is_in_plate(at(5, 5)));
    assert!(!plate.is_in_plate(at(11, 2)));
    assert!(!plate.is_in_plate(at(5, -1)));
}

#[test]
fn containment_includes_the_border() {
    let plate = Plate::new(at(0, 0), at(10, 5));
    assert!(plate.contains_point(at(5, 2)));
    assert!(plate.contains_point(at(0, 0)));
    assert!(plate.contains_point(at(10, 5)));
    assert!(plate.contains_point(at(0, 5)));
    assert!(plate.contains_point(at(10, 2)));
    assert!(!plate.contains_point(Vec2::new(10 * ONE + 1, 2 * ONE)));
    assert!(!plate.contains_point(Vec2::new(5 * ONE, -1)));
}

#[test]
fn plates_are_equal_by_their_bounds() {
    let mut a = Plate::new(at(0, 0), at(10, 5));
    let b = Plate::new(at(0, 0), at(10, 5));
    a.make_battery(3 * ONE);
    assert!(a == b);
    let c = Plate::new(at(0, 0), at(10, 6));
    assert!(a != c);
    let d = Plate::new(at(1, 0), at(10, 5));
    assert!(a != d);
}

#[test]
fn battery_on_a_square_plate_points_along_y() {
    let mut plate = Plate::new(at(0, 0), at(10, 10));
    plate.make_battery(2 * ONE);
    assert_eq!(plate.plate_type, PlateType::Battery);
    assert_eq!(plate.resist, ONE);
    assert_eq!(plate.efield, Vec2::new(0, 2 * ONE));
}

#[test]
fn battery_points_along_the_longer_side() {
    let mut wide = Plate::new(at(-40, -10), at(40, 10));
    wide.make_resistor(ONE / 2);
    wide.make_battery(-ONE);
    assert_eq!(wide.efield, Vec2::new(-ONE, 0));
    assert_eq!(wide.resist, ONE);
    let mut tall = Plate::new(at(-1, -10), at(1, 10));
    tall.make_battery(ONE);
    assert_eq!(tall.efield, Vec2::new(0, ONE));
    let mut huge = Plate::new(Vec2::new(i32::MIN, 0), Vec2::new(i32::MAX, 1));
    huge.make_battery(7);
    assert_eq!(huge.efield, Vec2::new(7, 0));
}

#[test]
fn resistor_keeps_the_field() {
    let mut plate = Plate::new(at(0, 0), at(20, 10));
    plate.make_battery(ONE);
    plate.make_resistor(ONE / 4);
    assert_eq!(plate.plate_type, PlateType::Resistor);
    assert_eq!(plate.resist, ONE / 4);
    assert_eq!(plate.efield, Vec2::new(ONE, 0));
    assert_eq!(plate.min, at(0, 0));
    assert_eq!(plate.max, at(20, 10));
}

#[test]
fn normal_drops_field_and_drag() {
    let mut plate = Plate::new(at(0, 0), at(20, 10));
    plate.make_battery(ONE);
    plate.make_resistor(ONE / 4);
    plate.make_normal();
    assert_eq!(plate.plate_type, PlateType::Normal);
    assert_eq!(plate.resist, ONE);
    assert_eq!(plate.efield, Vec2::zero());
}

#[test]
fn offsets_run_from_the_position_to_the_edges() {
    let plate = Plate::new(at(-1, -2), at(3, 4));
    let o = plate.offsets(at(1, 1));
    assert_eq!(o, Offsets { a: 3 * 65536, b: -3 * 65536, c: -2 * 65536, d: 2 * 65536 });
    let wide = Plate::new(Vec2::new(i32::MIN, i32::MIN), Vec2::new(i32::MAX, i32::MAX));
    let o = wide.offsets(Vec2::new(i32::MAX, i32::MIN));
    assert_eq!(o, Offsets { a: u32::MAX as i64, b: 0, c: -(u32::MAX as i64), d: 0 });
}

#[test]
fn field_is_half_the_difference_of_the_edge_integrals_turned_around() {
    let k = EdgeIntegrals {
        xac: Some(10),
        xad: Some(25),
        xbc: Some(-4),
        xbd: Some(40),
        yca: Some(7),
        ycb: Some(1),
        yda: Some(100),
        ydb: Some(91),
    };
    // x: ((40 - -4) - (25 - 10)) / 2 = 14, y: ((91 - 100) - (1 - 7)) / 2 = -1
    assert_eq!(k.field(), Vec2::new(-14, 1));
    assert_eq!(all(12_345).field(), Vec2::zero());
}

#[test]
fn field_saturates() {
    let k = EdgeIntegrals {
        xac: Some(i64::MIN),
        xad: Some(i64::MAX),
        xbc: Some(i64::MAX),
        xbd: Some(i64::MIN),
        ..all(0)
    };
    assert_eq!(k.field(), Vec2::new(i32::MAX, 0));
    let k = EdgeIntegrals { yda: Some(i64::MIN), ydb: Some(i64::MAX), ..all(0) };
    assert_eq!(k.field(), Vec2::new(0, i32::MIN));
}

#[test]
fn field_is_zero_when_an_integral_is_not_finite() {
    let mut k = all(5);
    k.xbd = Some(500);
    assert_eq!(k.field(), Vec2::new(-247, 0));
    k.yda = None;
    assert_eq!(k.field(), Vec2::zero());
    let mut k = all(5);
    k.xbd = Some(500);
    k.xac = None;
    assert_eq!(k.field(), Vec2::zero());
}

#[test]
fn efield_at_asks_the_kernel_at_each_pair_of_offsets() {
    let plate = Plate::new(at(-1, -2), at(3, 4));
    // a = 3, b = -3, c = -2, d = 2 at (1, 1); the kernel tells its arguments apart
    let probe = |u: i64, v: i64| Some(u / 65536 * 10 + v / 65536);
    // xac = 28, xad = 32, xbc = -32, xbd = -28, yca = -17, ycb = -23, yda = 23, ydb = 17
    // x: ((-28 - -32) - (32 - 28)) / 2 = 0, y: ((17 - 23) - (-23 - -17)) / 2 = 0
    assert_eq!(plate.efield_at(at(1, 1), &probe), Vec2::zero());
    let skew = |u: i64, v: i64| Some(u / 65536 * v / 65536 * (u / 65536 + 2));
    // xac = -30, xad = 30, xbc = -6, xbd = 6, yca = 0, ycb = 0, yda = 24, ydb = -24
    // x: ((6 - -6) - (30 - -30)) / 2 = -24, y: ((-24 - 24) - (0 - 0)) / 2 = -24
    assert_eq!(plate.efield_at(at(1, 1), &skew), Vec2::new(24, 24));
}

#[test]
fn efield_at_is_zero_on_a_corner() {
    let plate = Plate::new(at(-1, -1), at(1, 1));
    assert_eq!(plate.efield_at(at(1, 1), &kernel), Vec2::zero());
    assert_eq!(plate.efield_at(at(-1, 1), &kernel), Vec2::zero());
}

#[test]
fn efield_at_is_finite_on_an_edge() {
    let plate = Plate::new(at(-1, -1), at(1, 1));
    let field = plate.efield_at(at(1, 0), &kernel);
    assert!(field.x < -ONE / 2);
    assert_eq!(field.y, 0);
}

#[test]
fn efield_at_vanishes_at_the_center() {
    let plate = Plate::new(at(-3, -2), at(3, 2));
    let field = plate.efield_at(at(0, 0), &kernel);
    assert!(field.x.abs() <= 2 && field.y.abs() <= 2);
}

#[test]
fn efield_at_beside_a_square_plate() {
    let plate = Plate::new(at(-1, -1), at(1, 1));
    let right = plate.efield_at(at(3, 0), &kernel);
    assert!((right.x + 43_549).abs() <= 2);
    assert_eq!(right.y, 0);
    let left = plate.efield_at(at(-3, 0), &kernel);
    assert!((left.x - 43_549).abs() <= 2);
    assert_eq!(left.y, 0);
    let above = plate.efield_at(at(0, 3), &kernel);
    assert_eq!(above.x, 0);
    assert!((above.y + 43_549).abs() <= 2);
}
