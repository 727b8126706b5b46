//! Editing the plates of a running simulation: selecting them on a grid,
//! removing them with the bodies on them, changing their kind, and adding
//! new ones with bodies of their own.
//!
//! An [`Editor`] takes in what the pointer and the keys did, frame by
//! frame, and does to the bodies and plates what that asks for.

use vstd::prelude::*;
use crate::body::Body;
use crate::fixed::{clamp, fx_add, fx_mul, fx_sub, mul_spec, ONE};
use crate::plate::{Plate, PlateType};
use crate::utils::{partway, random_in_range};
use crate::vec2::Vec2;

verus! {

/// A tenth.
pub const TENTH: i32 = 6554;

/// The rectangle that a drag from one grid cell to another selects: from
/// the lower left corner of the lower left cell to the upper right corner
/// of the upper right cell.
pub open spec fn selection_spec(cell_start: Vec2, cell_end: Vec2, grid_size: i32) -> (Vec2, Vec2) {
    let far_x = if cell_start.x >= cell_end.x { cell_start.x } else { cell_end.x };
    let far_y = if cell_start.y >= cell_end.y { cell_start.y } else { cell_end.y };
    (
        Vec2 {
            x: if cell_start.x <= cell_end.x { cell_start.x } else { cell_end.x },
            y: if cell_start.y <= cell_end.y { cell_start.y } else { cell_end.y },
        },
        Vec2 { x: clamp(far_x + grid_size), y: clamp(far_y + grid_size) },
    )
}

/// The rectangle that a drag from one grid cell to another selects.
pub fn get_selection(cell_start: Vec2, cell_end: Vec2, grid_size: i32) -> (r: (Vec2, Vec2))
    ensures
        r == selection_spec(cell_start, cell_end, grid_size),
{
    let min = Vec2 {
        x: if cell_start.x <= cell_end.x { cell_start.x } else { cell_end.x },
        y: if cell_start.y <= cell_end.y { cell_start.y } else { cell_end.y },
    };
    let max = Vec2 {
        x: fx_add(if cell_start.x >= cell_end.x { cell_start.x } else { cell_end.x }, grid_size),
        y: fx_add(if cell_start.y >= cell_end.y { cell_start.y } else { cell_end.y }, grid_size),
    };
    (min, max)
}

/// Whether the plate reaches into the rectangle from `min` to `max` by
/// more than `margin`.
pub open spec fn overlaps(plate: Plate, min: Vec2, max: Vec2, margin: i32) -> bool {
    &&& plate.min.x < clamp(max.x - margin)
    &&& plate.max.x > clamp(min.x + margin)
    &&& plate.min.y < clamp(max.y - margin)
    &&& plate.max.y > clamp(min.y + margin)
}

/// The indices, in rising order, of those of the first `n` plates that
/// reach into the rectangle from `min` to `max` by more than `margin`.
pub open spec fn overlapping(plates: Seq<Plate>, min: Vec2, max: Vec2, margin: i32, n: int) -> Seq<
    usize,
>
    decreases n,
{
    if n <= 0 {
        Seq::empty()
    } else if overlaps(plates[n - 1], min, max, margin) {
        overlapping(plates, min, max, margin, n - 1).push((n - 1) as usize)
    } else {
        overlapping(plates, min, max, margin, n - 1)
    }
}

/// The plates that overlap are among those looked at.
pub proof fn lemma_overlapping_in_range(plates: Seq<Plate>, min: Vec2, max: Vec2, margin: i32, n: int)
    requires
        0 <= n <= plates.len(),
        plates.len() <= usize::MAX,
    ensures
        forall|k: int|
            0 <= k < overlapping(plates, min, max, margin, n).len() ==> (#[trigger] overlapping(
                plates,
                min,
                max,
                margin,
                n,
            )[k]) < n,
    decreases n,
{
    if n > 0 {
        lemma_overlapping_in_range(plates, min, max, margin, n - 1);
        let before = overlapping(plates, min, max, margin, n - 1);
        let now = overlapping(plates, min, max, margin, n);
        assert forall|k: int| 0 <= k < now.len() implies (#[trigger] now[k]) < n by {
            if k < before.len() {
                assert(now[k] == before[k]);
            }
        }
    }
}

/// The indices, in rising order, of the plates that reach into the
/// rectangle from `min` to `max` by more than `margin`.
pub fn get_selected_plate_indicies(
    plates: &Vec<Plate>,
    min: Vec2,
    max: Vec2,
    margin: i32,
) -> (selected: Vec<usize>)
    ensures
        selected@ == overlapping(plates@, min, max, margin, plates@.len() as int),
        forall|k: int| 0 <= k < selected@.len() ==> (#[trigger] selected@[k]) < plates@.len(),
{
    let lo = Vec2 { x: fx_add(min.x, margin), y: fx_add(min.y, margin) };
    let hi = Vec2 { x: fx_sub(max.x, margin), y: fx_sub(max.y, margin) };
    let mut selected: Vec<usize> = Vec::new();
    let mut i: usize = 0;
    while i < plates.len()
        invariant
            i <= plates@.len(),
            lo == (Vec2 { x: clamp(min.x + margin), y: clamp(min.y + margin) }),
            hi == (Vec2 { x: clamp(max.x - margin), y: clamp(max.y - margin) }),
            selected@ == overlapping(plates@, min, max, margin, i as int),
        decreases plates@.len() - i,
    {
        let plate = &plates[i];
        if plate.min.x < hi.x && plate.max.x > lo.x && plate.min.y < hi.y && plate.max.y > lo.y {
            selected.push(i);
        }
        i += 1;
    }
    proof {
        lemma_overlapping_in_range(plates@, min, max, margin, plates@.len() as int);
    }
    selected
}

/// Whether `index` is one of `selected`.
pub open spec fn chosen(selected: Seq<usize>, index: int) -> bool {
    exists|k: int| 0 <= k < selected.len() && #[trigger] selected[k] == index
}

/// Whether one of the plates at the `selected` indices covers `pos`.
pub open spec fn on_chosen(plates: Seq<Plate>, selected: Seq<usize>, pos: Vec2) -> bool {
    exists|k: int|
        0 <= k < selected.len() && (#[trigger] selected[k]) < plates.len()
            && plates[selected[k] as int].covers(pos)
}

/// The first `n` plates without those at the `selected` indices.
pub open spec fn plates_left(plates: Seq<Plate>, selected: Seq<usize>, n: int) -> Seq<Plate>
    decreases n,
{
    if n <= 0 {
        Seq::empty()
    } else if chosen(selected, n - 1) {
        plates_left(plates, selected, n - 1)
    } else {
        plates_left(plates, selected, n - 1).push(plates[n - 1])
    }
}

/// The first `n` bodies without those that a plate at one of the
/// `selected` indices covers.
pub open spec fn bodies_left(
    bodies: Seq<Body>,
    plates: Seq<Plate>,
    selected: Seq<usize>,
    n: int,
) -> Seq<Body>
    decreases n,
{
    if n <= 0 {
        Seq::empty()
    } else if on_chosen(plates, selected, bodies[n - 1].pos) {
        bodies_left(bodies, plates, selected, n - 1)
    } else {
        bodies_left(bodies, plates, selected, n - 1).push(bodies[n - 1])
    }
}

/// Whether `index` is one of `selected`.
fn is_chosen(selected: &Vec<usize>, index: usize) -> (r: bool)
    ensures
        r == chosen(selected@, index as int),
{
    let mut k: usize = 0;
    while k < selected.len()
        invariant
            k <= selected@.len(),
            forall|l: int| 0 <= l < k ==> #[trigger] selected@[l] != index,
        decreases selected@.len() - k,
    {
        if selected[k] == index {
            return true;
        }
        k += 1;
    }
    false
}

/// Whether one of the plates at the `selected` indices covers `pos`.
fn is_on_chosen(plates: &Vec<Plate>, selected: &Vec<usize>, pos: Vec2) -> (r: bool)
    ensures
        r == on_chosen(plates@, selected@, pos),
{
    let mut k: usize = 0;
    while k < selected.len()
        invariant
            k <= selected@.len(),
            forall|l: int|
                0 <= l < k ==> !((#[trigger] selected@[l]) < plates@.len()
                    && plates@[selected@[l] as int].covers(pos)),
        decreases selected@.len() - k,
    {
        let index = selected[k];
        if index < plates.len() && plates[index].contains_point(pos) {
            return true;
        }
        k += 1;
    }
    false
}

/// Removes the plates at the `selected` indices and the bodies that they
/// cover; the others keep their order.
pub fn remove_plates(bodies: &mut Vec<Body>, plates: &mut Vec<Plate>, selected: &Vec<usize>)
    ensures
        final(plates)@ == plates_left(old(plates)@, selected@, old(plates)@.len() as int),
        final(bodies)@ == bodies_left(
            old(bodies)@,
            old(plates)@,
            selected@,
            old(bodies)@.len() as int,
        ),
{
    let mut bodies_kept: Vec<Body> = Vec::new();
    let mut i: usize = 0;
    while i < bodies.len()
        invariant
            i <= bodies@.len(),
            bodies@ == old(bodies)@,
            plates@ == old(plates)@,
            bodies_kept@ == bodies_left(bodies@, plates@, selected@, i as int),
        decreases bodies@.len() - i,
    {
        if !is_on_chosen(plates, selected, bodies[i].pos) {
            bodies_kept.push(bodies[i]);
        }
        i += 1;
    }
    let mut plates_kept: Vec<Plate> = Vec::new();
    let mut j: usize = 0;
    while j < plates.len()
        invariant
            j <= plates@.len(),
            plates@ == old(plates)@,
            plates_kept@ == plates_left(plates@, selected@, j as int),
        decreases plates@.len() - j,
    {
        if !is_chosen(selected, j) {
            plates_kept.push(plates[j]);
        }
        j += 1;
    }
    *bodies = bodies_kept;
    *plates = plates_kept;
}

/// The plate made into one of the given kind: a battery gets
/// `battery_strength`, a resistor `resistor_strength`.
pub open spec fn retyped(
    plate: Plate,
    plate_type: PlateType,
    battery_strength: i32,
    resistor_strength: i32,
) -> Plate {
    match plate_type {
        PlateType::Normal => Plate {
            plate_type: PlateType::Normal,
            resist: ONE,
            efield: Vec2 { x: 0, y: 0 },
            ..plate
        },
        PlateType::Battery => Plate {
            plate_type: PlateType::Battery,
            resist: ONE,
            efield: if plate.max.x - plate.min.x > plate.max.y - plate.min.y {
                Vec2 { x: battery_strength, y: 0 }
            } else {
                Vec2 { x: 0, y: battery_strength }
            },
            ..plate
        },
        PlateType::Resistor => Plate {
            plate_type: PlateType::Resistor,
            resist: resistor_strength,
            ..plate
        },
    }
}

/// Makes the plate one of the given kind.
pub fn set_plate_type(
    plate: &mut Plate,
    plate_type: PlateType,
    battery_strength: i32,
    resistor_strength: i32,
)
    ensures
        *final(plate) == retyped(*old(plate), plate_type, battery_strength, resistor_strength),
{
    match plate_type {
        PlateType::Normal => plate.make_normal(),
        PlateType::Battery => plate.make_battery(battery_strength),
        PlateType::Resistor => plate.make_resistor(resistor_strength),
    }
}

/// Whether `after` is `before` with the plates at the `selected` indices
/// made into plates of the given kind.
pub open spec fn retyped_all(
    before: Seq<Plate>,
    after: Seq<Plate>,
    selected: Seq<usize>,
    plate_type: PlateType,
    battery_strength: i32,
    resistor_strength: i32,
) -> bool {
    &&& after.len() == before.len()
    &&& forall|i: int|
        0 <= i < before.len() ==> #[trigger] after[i] == if chosen(selected, i) {
            retyped(before[i], plate_type, battery_strength, resistor_strength)
        } else {
            before[i]
        }
}

/// Makes the plates at the `selected` indices plates of the given kind.
pub fn retype_plates(
    plates: &mut Vec<Plate>,
    selected: &Vec<usize>,
    plate_type: PlateType,
    battery_strength: i32,
    resistor_strength: i32,
)
    ensures
        retyped_all(
            old(plates)@,
            final(plates)@,
            selected@,
            plate_type,
            battery_strength,
            resistor_strength,
        ),
{
    let mut i: usize = 0;
    while i < plates.len()
        invariant
            i <= plates@.len(),
            plates@.len() == old(plates)@.len(),
            forall|j: int|
                0 <= j < i ==> #[trigger] plates@[j] == if chosen(selected@, j) {
                    retyped(old(plates)@[j], plate_type, battery_strength, resistor_strength)
                } else {
                    old(plates)@[j]
                },
            forall|j: int| i <= j < plates@.len() ==> #[trigger] plates@[j] == old(plates)@[j],
        decreases plates@.len() - i,
    {
        if is_chosen(selected, i) {
            let mut plate = plates[i];
            set_plate_type(&mut plate, plate_type, battery_strength, resistor_strength);
            plates.set(i, plate);
        }
        i += 1;
    }
}

/// The plate with the strength of its kind set anew: a battery gets
/// `battery_strength`, a resistor `resistor_strength`, a normal plate stays.
pub open spec fn restrengthened(
    plate: Plate,
    battery_strength: i32,
    resistor_strength: i32,
) -> Plate {
    match plate.plate_type {
        PlateType::Normal => plate,
        _ => retyped(plate, plate.plate_type, battery_strength, resistor_strength),
    }
}

/// Whether a plate differs from what it was in field or resistance.
pub open spec fn strength_changed(before: Plate, after: Plate) -> bool {
    before.efield != after.efield || before.resist != after.resist
}

/// Whether `after` is `before` with the strengths of the batteries and
/// resistors at the `selected` indices set anew.
pub open spec fn restrengthened_all(
    before: Seq<Plate>,
    after: Seq<Plate>,
    selected: Seq<usize>,
    battery_strength: i32,
    resistor_strength: i32,
) -> bool {
    &&& after.len() == before.len()
    &&& forall|i: int|
        0 <= i < before.len() ==> #[trigger] after[i] == if chosen(selected, i) {
            restrengthened(before[i], battery_strength, resistor_strength)
        } else {
            before[i]
        }
}

/// Whether one of the plates differs from what it was in field or
/// resistance.
pub open spec fn any_strength_changed(before: Seq<Plate>, after: Seq<Plate>) -> bool {
    exists|i: int| 0 <= i < before.len() && strength_changed(before[i], #[trigger] after[i])
}

/// Sets the strengths of the batteries and resistors at the `selected`
/// indices anew, and says whether a field or a resistance changed.
pub fn update_strengths(
    plates: &mut Vec<Plate>,
    selected: &Vec<usize>,
    battery_strength: i32,
    resistor_strength: i32,
) -> (updated: bool)
    ensures
        restrengthened_all(
            old(plates)@,
            final(plates)@,
            selected@,
            battery_strength,
            resistor_strength,
        ),
        updated == any_strength_changed(old(plates)@, final(plates)@),
{
    let mut updated = false;
    let mut i: usize = 0;
    while i < plates.len()
        invariant
            i <= plates@.len(),
            plates@.len() == old(plates)@.len(),
            forall|j: int|
                0 <= j < i ==> #[trigger] plates@[j] == if chosen(selected@, j) {
                    restrengthened(old(plates)@[j], battery_strength, resistor_strength)
                } else {
                    old(plates)@[j]
                },
            forall|j: int| i <= j < plates@.len() ==> #[trigger] plates@[j] == old(plates)@[j],
            updated == exists|j: int|
                0 <= j < i && strength_changed(old(plates)@[j], #[trigger] plates@[j]),
        decreases plates@.len() - i,
    {
        let ghost entry = plates@;
        let ghost was = updated;
        if is_chosen(selected, i) {
            let mut plate = plates[i];
            let before = plate;
            match plate.plate_type {
                PlateType::Battery => plate.make_battery(battery_strength),
                PlateType::Resistor => plate.make_resistor(resistor_strength),
                PlateType::Normal => {},
            }
            if before.efield != plate.efield || before.resist != plate.resist {
                updated = true;
            }
            plates.set(i, plate);
        }
        proof {
            assert forall|j: int| 0 <= j < i implies plates@[j] == entry[j] by {}
            if was {
                let j = choose|j: int|
                    0 <= j < i && strength_changed(old(plates)@[j], #[trigger] entry[j]);
                assert(strength_changed(old(plates)@[j], plates@[j]));
            }
            if updated && !was {
                assert(strength_changed(old(plates)@[i as int], plates@[i as int]));
            }
            if !updated {
                assert forall|j: int| 0 <= j < i + 1 implies !strength_changed(
                    old(plates)@[j],
                    #[trigger] plates@[j],
                ) by {
                    if j < i {
                        assert(!strength_changed(old(plates)@[j], entry[j]));
                    }
                }
            }
        }
        i += 1;
    }
    updated
}

/// The number of bodies for a new plate from `min` to `max`: `density`
/// for each grid cell of its area, rounded down, and at most the largest
/// `usize`; none for a plate without area.
pub open spec fn bodies_to_add_spec(min: Vec2, max: Vec2, grid_size: i32, density: usize) -> int {
    if max.x <= min.x || max.y <= min.y {
        0
    } else {
        let count = ((max.x - min.x) * (max.y - min.y) * density) / (grid_size * grid_size);
        if count > usize::MAX {
            usize::MAX as int
        } else {
            count
        }
    }
}

/// The number of bodies for a new plate from `min` to `max`.
pub fn bodies_to_add(min: Vec2, max: Vec2, grid_size: i32, density: usize) -> (count: usize)
    requires
        grid_size != 0,
    ensures
        count == bodies_to_add_spec(min, max, grid_size, density),
{
    if max.x <= min.x || max.y <= min.y {
        return 0;
    }
    let w: u128 = (max.x as i64 - min.x as i64) as u128;
    let h: u128 = (max.y as i64 - min.y as i64) as u128;
    let g: u128 = (if grid_size >= 0 { grid_size as i64 } else { -(grid_size as i64) }) as u128;
    proof {
        assert(g * g == grid_size * grid_size) by (nonlinear_arith)
            requires
                g == grid_size || g == -grid_size,
        ;
        assert(0 < g * g <= 0x8000_0000 * 0x8000_0000) by (nonlinear_arith)
            requires
                0 < g <= 0x8000_0000,
        ;
        assert(0 <= w * h <= 0xffff_ffff * 0xffff_ffff) by (nonlinear_arith)
            requires
                0 <= w <= 0xffff_ffff,
                0 <= h <= 0xffff_ffff,
        ;
        assert(0 <= (w * h) * density <= (0xffff_ffff * 0xffff_ffff) * 0xffff_ffff_ffff_ffff)
            by (nonlinear_arith)
            requires
                0 <= w * h <= 0xffff_ffff * 0xffff_ffff,
                0 <= density <= 0xffff_ffff_ffff_ffff,
        ;
    }
    let area: u128 = w * h;
    let count: u128 = (area * density as u128) / (g * g);
    if count > usize::MAX as u128 {
        usize::MAX
    } else {
        count as usize
    }
}

/// Whether `after` is `before` and then `count` bodies of radius one, at
/// rest at places of the rectangle from `min` to `max` that are `margin`
/// off its border.
pub open spec fn spawned(
    before: Seq<Body>,
    after: Seq<Body>,
    count: int,
    min: Vec2,
    max: Vec2,
    margin: i32,
) -> bool {
    &&& after.len() == before.len() + count
    &&& forall|i: int| 0 <= i < before.len() ==> #[trigger] after[i] == before[i]
    &&& forall|i: int|
        before.len() <= i < after.len() ==> {
            let b = #[trigger] after[i];
            &&& partway(clamp(min.x + margin), clamp(max.x - margin), b.pos.x)
            &&& partway(clamp(min.y + margin), clamp(max.y - margin), b.pos.y)
            &&& b.efield == (Vec2 { x: 0, y: 0 })
            &&& b.radius == ONE
            &&& b.resist == ONE
        }
}

/// Adds `count` bodies of radius one at random places of the rectangle
/// from `min` to `max`, `margin` off its border.
pub fn spawn_bodies(bodies: &mut Vec<Body>, count: usize, min: Vec2, max: Vec2, margin: i32)
    ensures
        spawned(old(bodies)@, final(bodies)@, count as int, min, max, margin),
{
    let lo = Vec2 { x: fx_add(min.x, margin), y: fx_add(min.y, margin) };
    let hi = Vec2 { x: fx_sub(max.x, margin), y: fx_sub(max.y, margin) };
    let mut k: usize = 0;
    while k < count
        invariant
            k <= count,
            lo == (Vec2 { x: clamp(min.x + margin), y: clamp(min.y + margin) }),
            hi == (Vec2 { x: clamp(max.x - margin), y: clamp(max.y - margin) }),
            bodies@.len() == old(bodies)@.len() + k,
            forall|i: int| 0 <= i < old(bodies)@.len() ==> #[trigger] bodies@[i] == old(bodies)@[i],
            forall|i: int|
                old(bodies)@.len() <= i < bodies@.len() ==> {
                    let b = #[trigger] bodies@[i];
                    &&& partway(lo.x, hi.x, b.pos.x)
                    &&& partway(lo.y, hi.y, b.pos.y)
                    &&& b.efield == (Vec2 { x: 0, y: 0 })
                    &&& b.radius == ONE
                    &&& b.resist == ONE
                },
        decreases count - k,
    {
        let x = random_in_range(lo.x, hi.x);
        let y = random_in_range(lo.y, hi.y);
        bodies.push(Body::new(Vec2::new(x, y), ONE));
        k += 1;
    }
}

/// Whether `plates` is `plates0` and then a plate of the given kind over
/// the rectangle from `min` to `max`, and `bodies` is `bodies0` and then
/// `density` bodies for each grid cell of the plate's area, a tenth of a
/// cell off its border.
pub open spec fn plate_added(
    bodies0: Seq<Body>,
    plates0: Seq<Plate>,
    bodies: Seq<Body>,
    plates: Seq<Plate>,
    min: Vec2,
    max: Vec2,
    plate_type: PlateType,
    battery_strength: i32,
    resistor_strength: i32,
    grid_size: i32,
    density: usize,
) -> bool {
    &&& plates == plates0.push(
        retyped(
            Plate {
                min,
                max,
                efield: Vec2 { x: 0, y: 0 },
                resist: ONE,
                plate_type: PlateType::Normal,
            },
            plate_type,
            battery_strength,
            resistor_strength,
        ),
    )
    &&& spawned(
        bodies0,
        bodies,
        bodies_to_add_spec(min, max, grid_size, density),
        min,
        max,
        clamp(mul_spec(grid_size as int, TENTH as int)),
    )
}

/// Adds a plate of the given kind over the rectangle from `min` to `max`,
/// with `density` bodies for each grid cell of its area at random places a
/// tenth of a cell off its border.
pub fn add_plate(
    bodies: &mut Vec<Body>,
    plates: &mut Vec<Plate>,
    min: Vec2,
    max: Vec2,
    plate_type: PlateType,
    battery_strength: i32,
    resistor_strength: i32,
    grid_size: i32,
    density: usize,
)
    requires
        min.x < max.x,
        min.y < max.y,
        grid_size != 0,
    ensures
        plate_added(
            old(bodies)@,
            old(plates)@,
            final(bodies)@,
            final(plates)@,
            min,
            max,
            plate_type,
            battery_strength,
            resistor_strength,
            grid_size,
            density,
        ),
{
    let mut plate = Plate::new(min, max);
    set_plate_type(&mut plate, plate_type, battery_strength, resistor_strength);
    plates.push(plate);
    let count = bodies_to_add(min, max, grid_size, density);
    let margin = fx_mul(grid_size, TENTH);
    spawn_bodies(bodies, count, min, max, margin);
}

/// The lower end of the grid cell around `v`, on a grid whose cells are
/// `grid` wide and start at zero.
pub open spec fn snap_spec(v: i32, grid: i32) -> i32 {
    clamp((v as int / grid as int) * grid)
}

/// The lower end of the grid cell around `v`.
pub fn snap(v: i32, grid: i32) -> (r: i32)
    requires
        grid > 0,
    ensures
        r == snap_spec(v, grid),
{
    let wide: i64 = v as i64;
    let g: i64 = grid as i64;
    let q: i64 = wide / g;
    proof {
        crate::fixed::lemma_trunc_div_bounds(wide as int, g as int);
        crate::fixed::lemma_mul_bound(q as int, g as int, 0x8000_0000, 0x8000_0000);
    }
    let r: i64 = wide - q * g;
    let cell: i64 = if r < 0 { q - 1 } else { q };
    proof {
        assert(q * g == g * q) by (nonlinear_arith);
        let rest: int = if r < 0 { r + g } else { r as int };
        assert(wide == cell * g + rest) by (nonlinear_arith)
            requires
                r == wide - q * g,
                r < 0 ==> cell == q - 1 && rest == r + g,
                r >= 0 ==> cell == q && rest == r,
        ;
        vstd::arithmetic::div_mod::lemma_fundamental_div_mod_converse(
            wide as int,
            g as int,
            cell as int,
            rest,
        );
        crate::fixed::lemma_mul_bound(cell as int, g as int, 0x8000_0001, 0x8000_0000);
    }
    crate::fixed::saturate((cell * g) as i128)
}

/// What the pointer and the keys did since the last frame.
pub struct Input {
    /// Where the pointer is.
    pub mouse: Vec2,
    pub left_pressed: bool,
    pub right_pressed: bool,
    pub left_released: bool,
    pub left_held: bool,
    /// Whether the key that removes the selected plates was pressed.
    pub back: bool,
    /// Whether the key for a normal plate was pressed.
    pub key1: bool,
    /// Whether the key for a battery was pressed.
    pub key2: bool,
    /// Whether the key for a resistor was pressed.
    pub key3: bool,
}

/// The state of the editing: the selection on the grid, the plates under
/// it, and what is to be done to them.
pub struct Editor {
    /// Whether the selected plates are to be removed.
    pub remove_selection: bool,
    /// The kind that the selected plates are to get, or a new plate under
    /// the selection if there is none.
    pub setting_plate: Option<PlateType>,
    pub battery_strength: i32,
    pub resistor_strength: i32,
    pub selected_plate_indicies: Vec<usize>,
    /// The number of bodies that a new plate gets for each grid cell.
    pub body_density: usize,
    pub grid_size: i32,
    pub hovered_cell: Vec2,
    pub cell_start: Vec2,
    pub cell_end: Vec2,
    pub selection_active: bool,
    pub mouse_down: bool,
}

impl Editor {
    /// Whether a selection is going on once the buttons have been seen to:
    /// the right button ends it, the left button starts one.
    pub open spec fn active_after_buttons(self, input: Input) -> bool {
        if input.right_pressed {
            false
        } else if input.left_pressed {
            true
        } else {
            self.selection_active
        }
    }

    /// The cell that the pointer is over.
    pub open spec fn hovered(self, input: Input) -> Vec2 {
        Vec2 { x: snap_spec(input.mouse.x, self.grid_size), y: snap_spec(input.mouse.y, self.grid_size) }
    }

    /// The rectangle that is selected when the left button is let go: from
    /// the cell where it went down, which is the hovered one if that was
    /// just now, to the cell where the pointer was held last.
    pub open spec fn released_selection(self, input: Input) -> (Vec2, Vec2) {
        selection_spec(
            if input.left_pressed {
                self.hovered(input)
            } else {
                self.cell_start
            },
            self.cell_end,
            self.grid_size,
        )
    }

    /// Whether letting the left button go selects plates anew.
    pub open spec fn selects(self, input: Input) -> bool {
        input.left_released && self.active_after_buttons(input)
    }

    /// The plates that are selected after the input.
    pub open spec fn selected_after(self, input: Input, plates: Seq<Plate>) -> Seq<usize> {
        if self.selects(input) {
            let (min, max) = self.released_selection(input);
            overlapping(plates, min, max, ONE, plates.len() as int)
        } else if input.left_pressed || input.right_pressed {
            Seq::empty()
        } else {
            self.selected_plate_indicies@
        }
    }

    /// The one plate that letting the left button go has selected, if it
    /// is one.
    pub open spec fn picked(self, input: Input, plates: Seq<Plate>) -> Option<Plate> {
        if self.selects(input) && self.selected_after(input, plates).len() == 1 {
            Some(plates[self.selected_after(input, plates)[0] as int])
        } else {
            None
        }
    }

    /// An editor with nothing selected, on a grid of cells ten wide, with a
    /// battery strength of one, a resistance of a half and four bodies for
    /// each cell.
    pub fn new() -> (r: Editor)
        ensures
            !r.remove_selection,
            r.setting_plate is None,
            r.battery_strength == ONE,
            r.resistor_strength == ONE / 2,
            r.selected_plate_indicies@.len() == 0,
            r.body_density == 4,
            r.grid_size == 10 * ONE,
            r.hovered_cell == (Vec2 { x: 0, y: 0 }),
            r.cell_start == (Vec2 { x: 0, y: 0 }),
            r.cell_end == (Vec2 { x: 0, y: 0 }),
            !r.selection_active,
            !r.mouse_down,
    {
        Editor {
            remove_selection: false,
            setting_plate: None,
            battery_strength: ONE,
            resistor_strength: ONE / 2,
            selected_plate_indicies: Vec::new(),
            body_density: 4,
            grid_size: 655360,
            hovered_cell: Vec2::zero(),
            cell_start: Vec2::zero(),
            cell_end: Vec2::zero(),
            selection_active: false,
            mouse_down: false,
        }
    }

    /// The rectangle that is selected.
    pub fn get_selection(&self) -> (r: (Vec2, Vec2))
        ensures
            r == selection_spec(self.cell_start, self.cell_end, self.grid_size),
    {
        get_selection(self.cell_start, self.cell_end, self.grid_size)
    }

    /// Ends the selection and forgets what was to be done to it.
    pub fn deselect_all(&mut self)
        ensures
            final(self).selected_plate_indicies@ == Seq::<usize>::empty(),
            !final(self).remove_selection,
            !final(self).selection_active,
            final(self).setting_plate == old(self).setting_plate,
            final(self).battery_strength == old(self).battery_strength,
            final(self).resistor_strength == old(self).resistor_strength,
            final(self).body_density == old(self).body_density,
            final(self).grid_size == old(self).grid_size,
            final(self).hovered_cell == old(self).hovered_cell,
            final(self).cell_start == old(self).cell_start,
            final(self).cell_end == old(self).cell_end,
            final(self).mouse_down == old(self).mouse_down,
    {
        self.selected_plate_indicies.clear();
        self.remove_selection = false;
        self.selection_active = false;
        assert(self.selected_plate_indicies@ =~= Seq::<usize>::empty());
    }

    /// Takes in what the pointer and the keys did. The left button starts
    /// a selection at the hovered cell and the right button ends it;
    /// letting the left button go during a selection selects the plates
    /// under it, and one plate alone hands its strength to the editor;
    /// holding the left button moves the far end of the selection; the
    /// remove key marks the selection for removal and ends it; the keys
    /// for the kinds say what the selected plates are to become.
    pub fn input(&mut self, input: &Input, plates: &Vec<Plate>)
        requires
            old(self).grid_size > 0,
        ensures
            final(self).hovered_cell == old(self).hovered(*input),
            final(self).mouse_down == if input.left_released {
                false
            } else {
                input.left_pressed || old(self).mouse_down
            },
            final(self).cell_start == if input.left_pressed {
                old(self).hovered(*input)
            } else {
                old(self).cell_start
            },
            final(self).cell_end == if input.left_held {
                old(self).hovered(*input)
            } else {
                old(self).cell_end
            },
            final(self).selected_plate_indicies@ == old(self).selected_after(*input, plates@),
            forall|k: int|
                0 <= k < final(self).selected_plate_indicies@.len() && old(self).selects(*input)
                    ==> (#[trigger] final(self).selected_plate_indicies@[k]) < plates@.len(),
            final(self).battery_strength == match old(self).picked(*input, plates@) {
                Some(plate) if plate.plate_type == PlateType::Battery => if plate.efield.x == 0 {
                    plate.efield.y
                } else {
                    plate.efield.x
                },
                _ => old(self).battery_strength,
            },
            final(self).resistor_strength == match old(self).picked(*input, plates@) {
                Some(plate) if plate.plate_type == PlateType::Resistor => plate.resist,
                _ => old(self).resistor_strength,
            },
            final(self).selection_active == (old(self).active_after_buttons(*input) && !input.back),
            final(self).remove_selection == (old(self).remove_selection || (input.back && old(
                self,
            ).active_after_buttons(*input))),
            final(self).setting_plate == if input.key3 {
                Some(PlateType::Resistor)
            } else if input.key2 {
                Some(PlateType::Battery)
            } else if input.key1 {
                Some(PlateType::Normal)
            } else {
                old(self).setting_plate
            },
            final(self).body_density == old(self).body_density,
            final(self).grid_size == old(self).grid_size,
    {
        self.hovered_cell = Vec2 {
            x: snap(input.mouse.x, self.grid_size),
            y: snap(input.mouse.y, self.grid_size),
        };
        if input.left_pressed {
            self.mouse_down = true;
            self.cell_start = self.hovered_cell;
            self.selection_active = true;
            self.selected_plate_indicies = Vec::new();
        }
        if input.right_pressed {
            self.selection_active = false;
            self.selected_plate_indicies = Vec::new();
        }
        if input.left_released {
            self.mouse_down = false;
            if self.selection_active {
                let (min, max) = self.get_selection();
                self.selected_plate_indicies = get_selected_plate_indicies(plates, min, max, ONE);
                if self.selected_plate_indicies.len() == 1 {
                    let plate = plates[self.selected_plate_indicies[0]];
                    match plate.plate_type {
                        PlateType::Battery => {
                            if plate.efield.x == 0 {
                                self.battery_strength = plate.efield.y;
                            } else {
                                self.battery_strength = plate.efield.x;
                            }
                        },
                        PlateType::Resistor => {
                            self.resistor_strength = plate.resist;
                        },
                        PlateType::Normal => {},
                    }
                }
            }
        }
        if input.left_held {
            self.cell_end = self.hovered_cell;
        }
        if input.back {
            if self.selection_active {
                self.remove_selection = true;
                self.selection_active = false;
            }
        }
        if input.key1 {
            self.setting_plate = Some(PlateType::Normal);
        }
        if input.key2 {
            self.setting_plate = Some(PlateType::Battery);
        }
        if input.key3 {
            self.setting_plate = Some(PlateType::Resistor);
        }
    }

    /// What `update_objects` makes of an editor, the bodies and the plates.
    /// First the selected plates are removed with the bodies on them, if
    /// that was asked for. Then, if a kind was asked for, the plates that
    /// are still selected get it; if none is, a plate of that kind is added
    /// under the selection, unless the selection has no area. Either ends
    /// the selection. In a selection that goes on, the selected batteries
    /// and resistors take the editor's strengths. The result says whether
    /// anything was removed, asked for or changed.
    pub open spec fn edited(
        pre: Editor,
        bodies0: Seq<Body>,
        plates0: Seq<Plate>,
        post: Editor,
        bodies: Seq<Body>,
        plates: Seq<Plate>,
        updated: bool,
    ) -> bool {
        let removing = pre.remove_selection;
        let acted = removing || pre.setting_plate is Some;
        let chosen0 = pre.selected_plate_indicies@;
        let bodies1 = if removing {
            bodies_left(bodies0, plates0, chosen0, bodies0.len() as int)
        } else {
            bodies0
        };
        let plates1 = if removing {
            plates_left(plates0, chosen0, plates0.len() as int)
        } else {
            plates0
        };
        let chosen1 = if removing {
            Seq::<usize>::empty()
        } else {
            chosen0
        };
        let (min, max) = selection_spec(pre.cell_start, pre.cell_end, pre.grid_size);
        let strong = pre.battery_strength;
        let slow = pre.resistor_strength;
        &&& post.setting_plate is None
        &&& !post.remove_selection
        &&& post.selection_active == (pre.selection_active && !acted)
        &&& post.selected_plate_indicies@ == if acted {
            Seq::<usize>::empty()
        } else {
            chosen0
        }
        &&& post.battery_strength == pre.battery_strength
        &&& post.resistor_strength == pre.resistor_strength
        &&& post.body_density == pre.body_density
        &&& post.grid_size == pre.grid_size
        &&& post.hovered_cell == pre.hovered_cell
        &&& post.cell_start == pre.cell_start
        &&& post.cell_end == pre.cell_end
        &&& post.mouse_down == pre.mouse_down
        &&& match pre.setting_plate {
            Some(kind) => {
                &&& updated
                &&& if chosen1.len() > 0 {
                    bodies == bodies1 && retyped_all(plates1, plates, chosen1, kind, strong, slow)
                } else if min.x < max.x && min.y < max.y {
                    plate_added(
                        bodies1,
                        plates1,
                        bodies,
                        plates,
                        min,
                        max,
                        kind,
                        strong,
                        slow,
                        pre.grid_size,
                        pre.body_density,
                    )
                } else {
                    bodies == bodies1 && plates == plates1
                }
            },
            None => {
                &&& bodies == bodies1
                &&& if post.selection_active {
                    &&& restrengthened_all(plates1, plates, chosen1, strong, slow)
                    &&& updated == any_strength_changed(plates1, plates)
                } else {
                    plates == plates1 && updated == removing
                }
            },
        }
    }

    /// Does to the bodies and plates what the editor was asked to, and
    /// says whether anything was removed, asked for or changed.
    pub fn update_objects(&mut self, bodies: &mut Vec<Body>, plates: &mut Vec<Plate>) -> (updated:
        bool)
        requires
            old(self).grid_size != 0,
        ensures
            Self::edited(
                *old(self),
                old(bodies)@,
                old(plates)@,
                *final(self),
                final(bodies)@,
                final(plates)@,
                updated,
            ),
    {
        let mut updated = false;
        let plate_type = self.setting_plate;
        self.setting_plate = None;
        if self.remove_selection {
            remove_plates(bodies, plates, &self.selected_plate_indicies);
            self.deselect_all();
            updated = true;
        }
        match plate_type {
            Some(kind) => {
                if self.selected_plate_indicies.len() > 0 {
                    retype_plates(
                        plates,
                        &self.selected_plate_indicies,
                        kind,
                        self.battery_strength,
                        self.resistor_strength,
                    );
                } else {
                    let (min, max) = self.get_selection();
                    if min.x < max.x && min.y < max.y {
                        add_plate(
                            bodies,
                            plates,
                            min,
                            max,
                            kind,
                            self.battery_strength,
                            self.resistor_strength,
                            self.grid_size,
                            self.body_density,
                        );
                    }
                }
                self.deselect_all();
                updated = true;
            },
            None => {},
        }
        if self.selection_active {
            let changed = update_strengths(
                plates,
                &self.selected_plate_indicies,
                self.battery_strength,
                self.resistor_strength,
            );
            updated = updated || changed;
        }
        updated
    }
}

} // verus!
