use sideworld::common::Vec2;
use sideworld::components::World;
use sideworld::fixed::Fixed;
use sideworld::physics::{simulation_systems, TICK_RAW};
use sideworld::platforms::{mover_advance, mover_block, mover_blocks, MoverBlock};

const MS: u64 = 1_000_000;

fn v(x: i64, y: i64) -> Vec2 {
    Vec2::from_raw(x, y)
}

fn tick() -> Fixed {
    Fixed::from_raw(TICK_RAW)
}

fn shuttle() -> MoverBlock {
    MoverBlock { start: v(0, 10_000_000), end: v(20_000_000, 10_000_000), travel_time: Fixed::from_units(4) }
}

#[test]
fn a_block_advances_by_its_share_of_the_segment() {
    // 0.01 s of 4 s is 1/400 of 20 units
    assert_eq!(mover_advance(v(0, 10_000_000), &shuttle(), tick()), v(50_000, 10_000_000));
    assert_eq!(mover_advance(v(50_000, 10_000_000), &shuttle(), tick()), v(100_000, 10_000_000));
    // a whole second from the middle
    assert_eq!(
        mover_advance(v(10_000_000, 10_000_000), &shuttle(), Fixed::from_units(1)),
        v(15_000_000, 10_000_000)
    );
}

#[test]
fn mover_block_moves_in_place() {
    let mut pos = v(0, 10_000_000);
    mover_block(&mut pos, &shuttle(), tick());
    assert_eq!(pos, v(50_000, 10_000_000));
}

#[test]
fn a_block_on_a_slanted_segment() {
    // from (0,0) to (3,4): length 5; a fifth of the way per second
    let m = MoverBlock { start: v(0, 0), end: v(3_000_000, 4_000_000), travel_time: Fixed::from_units(5) };
    assert_eq!(mover_advance(v(0, 0), &m, Fixed::from_units(1)), v(600_000, 800_000));
    assert_eq!(mover_advance(v(600_000, 800_000), &m, Fixed::from_units(1)), v(1_200_000, 1_600_000));
}

#[test]
fn a_block_reaches_the_end_and_starts_over() {
    let mut w = World::new();
    let id = w.new_mover_block(v(0, 10_000_000), v(20_000_000, 10_000_000), Fixed::from_units(4));
    for n in 1..=399 {
        simulation_systems(&mut w, 10 * MS);
        assert_eq!(w.positions[&id], v(50_000 * n, 10_000_000));
    }
    // after four seconds the block stands at the end of its segment
    simulation_systems(&mut w, 10 * MS);
    assert_eq!(w.positions[&id], v(20_000_000, 10_000_000));
    // the next tick takes it past the end: it starts over, it does not turn back
    simulation_systems(&mut w, 10 * MS);
    assert_eq!(w.positions[&id], v(50_000, 10_000_000));
    simulation_systems(&mut w, 10 * MS);
    assert_eq!(w.positions[&id], v(100_000, 10_000_000));
}

#[test]
fn a_block_repeats_every_four_seconds() {
    let mut w = World::new();
    let id = w.new_mover_block(v(0, 10_000_000), v(20_000_000, 10_000_000), Fixed::from_units(4));
    simulation_systems(&mut w, 1230 * MS);
    let seen = w.positions[&id];
    assert_eq!(seen, v(6_150_000, 10_000_000));
    simulation_systems(&mut w, 4000 * MS);
    assert_eq!(w.positions[&id], seen);
}

#[test]
fn a_block_past_the_end_wraps_at_once() {
    // progress 0.9 + 0.25 = 1.15 wraps to 0.15
    assert_eq!(
        mover_advance(v(18_000_000, 10_000_000), &shuttle(), Fixed::from_units(1)),
        v(3_000_000, 10_000_000)
    );
}

#[test]
fn a_block_does_not_fall_and_is_not_grounded() {
    let mut w = World::new();
    let id = w.new_mover_block(v(0, 10_000_000), v(20_000_000, 10_000_000), Fixed::from_units(4));
    simulation_systems(&mut w, 100 * MS);
    assert_eq!(w.positions[&id].y.raw, 10_000_000);
    assert!(!w.velocities.contains_key(&id));
    assert!(!w.groundables.contains_key(&id));
}

#[test]
fn mover_blocks_moves_every_block_with_a_position() {
    let mut w = World::new();
    let a = w.new_mover_block(v(0, 10_000_000), v(20_000_000, 10_000_000), Fixed::from_units(4));
    let b = w.new_mover_block(v(0, 0), v(0, 8_000_000), Fixed::from_units(2));
    let still = w.new_static_obstacle(v(5_000_000, 5_000_000), v(1_000_000, 1_000_000));
    // a schedule without a position
    w.mover_blocks.insert(99, shuttle());
    mover_blocks(&mut w, tick());
    assert_eq!(w.positions[&a], v(50_000, 10_000_000));
    assert_eq!(w.positions[&b], v(0, 40_000));
    assert_eq!(w.positions[&still], v(5_000_000, 5_000_000));
    assert!(!w.positions.contains_key(&99));
}

#[test]
fn a_player_lands_on_a_block() {
    let mut w = World::new();
    let player = w.new_player();
    // the block's box is 4 by 1 in half extents: its top is at y = 1.5
    let block = w.new_mover_block(v(8_000_000, 500_000), v(12_000_000, 500_000), Fixed::from_units(4));
    simulation_systems(&mut w, 200 * MS);
    // the player's box is 2 high in half extents
    assert_eq!(w.positions[&player].y.raw, 3_500_000);
    assert_eq!(w.velocities[&player].y.raw, 0);
    assert_eq!(w.groundables[&player], true);
    assert!(w.statics_collisions.contains(&block));
}

#[test]
fn validity_of_schedules() {
    assert!(shuttle().is_valid());
    let stuck = MoverBlock { start: v(1, 1), end: v(1, 1), travel_time: Fixed::from_units(4) };
    assert!(!stuck.is_valid());
    let timeless = MoverBlock { travel_time: Fixed::zero(), ..shuttle() };
    assert!(!timeless.is_valid());
    let backwards = MoverBlock { travel_time: Fixed::from_units(-1), ..shuttle() };
    assert!(!backwards.is_valid());
}

#[test]
fn a_schedule_without_length_holds_its_block() {
    let stuck = MoverBlock { start: v(7, 9), end: v(7, 9), travel_time: Fixed::from_units(4) };
    assert_eq!(mover_advance(v(7, 9), &stuck, tick()), v(7, 9));
    assert_eq!(mover_advance(v(1_000_000, -3), &stuck, tick()), v(7, 9));
}
