//! What holds of the simulation as a whole: laws that relate several of its
//! functions, proved from their definitions.

use crate::camera::Camera;
use crate::common::{axis_overlap, Vec2};
use crate::components::{Bodies, Collision, WorldView, ID};
use crate::fixed::{magnitude, Fixed};
use crate::physics::{
    spec_floor_clamp, spec_follow, spec_hits, spec_integrated, spec_leftover, spec_physics_step,
    spec_resolve, spec_run, spec_run_contacts, spec_simulation, spec_staged, spec_test_y,
    spec_tick, spec_ticks_in, UpdateContainer, TICK_NANOS, TICK_RAW,
};
use crate::platforms::spec_mover_blocks;
use vstd::prelude::*;

verus! {

/// A vertical collision while moving down lands the entity: whatever the
/// colliders are, it comes out grounded and with no vertical velocity.
pub proof fn lemma_landing_grounds(b: Bodies, id: ID, coll: Collision, u: UpdateContainer)
    requires
        u.next_pos.y.raw < u.pos.y.raw,
        exists|h: (ID, Vec2)| spec_hits(b, id, coll, spec_test_y(b, id, coll, u)).contains(h),
    ensures
        spec_resolve(b, id, coll, u).grounded,
        spec_resolve(b, id, coll, u).next_vel.y.raw == 0,
        spec_floor_clamp(spec_resolve(b, id, coll, u)).grounded,
        spec_floor_clamp(spec_resolve(b, id, coll, u)).next_vel.y.raw == 0,
{
}

/// The same of a whole tick: a moving entity with a box that falls and meets
/// a collider on the vertical part of its move is grounded after the tick
/// and has no vertical velocity.
pub proof fn lemma_landing_tick(w: WorldView, id: ID, dt: Fixed)
    requires
        w.bodies().is_mover(id),
        w.collisions.contains_key(id),
        spec_integrated(w.bodies(), id, dt).next_pos.y.raw < w.positions[id].y.raw,
        exists|h: (ID, Vec2)|
            spec_hits(
                w.bodies(),
                id,
                w.collisions[id],
                spec_test_y(w.bodies(), id, w.collisions[id], spec_integrated(w.bodies(), id, dt)),
            ).contains(h),
    ensures
        spec_physics_step(w, dt).groundables[id] == true,
        spec_physics_step(w, dt).velocities[id].y.raw == 0,
{
    reveal(spec_staged);
    lemma_landing_grounds(w.bodies(), id, w.collisions[id], spec_integrated(w.bodies(), id, dt));
}

/// A tick never changes the horizontal velocity of a moving entity:
/// collisions correct its position along x and leave its speed alone.
pub proof fn lemma_horizontal_velocity_kept(w: WorldView, id: ID, dt: Fixed)
    requires
        w.bodies().is_mover(id),
    ensures
        spec_physics_step(w, dt).velocities[id].x == w.velocities[id].x,
{
    reveal(spec_staged);
}

/// Backing a box out of another along an axis brings the two into contact
/// on that axis and no further: afterwards their centers are exactly as far
/// apart as their half extents add up to, and they no longer overlap there.
/// Stated for coordinates and extents that the backout cannot saturate.
pub proof fn lemma_backout_reaches_contact(ca: Fixed, ha: Fixed, cb: Fixed, hb: Fixed)
    requires
        axis_overlap(ca, ha, cb, hb) is Some,
        magnitude(ca.raw as int) <= 0x2000_0000_0000_0000,
        magnitude(cb.raw as int) <= 0x2000_0000_0000_0000,
        magnitude(ha.raw as int) <= 0x2000_0000_0000_0000,
        magnitude(hb.raw as int) <= 0x2000_0000_0000_0000,
    ensures
        ({
            let moved = ca.spec_add(axis_overlap(ca, ha, cb, hb)->0);
            &&& axis_overlap(moved, ha, cb, hb) is None
            &&& magnitude(cb.raw - moved.raw) == ha.raw + hb.raw
        }),
{
}

/// After a tick no moving entity is below the floor, and one that is on the
/// floor is grounded and at rest vertically.
pub proof fn lemma_floor_holds(w: WorldView, id: ID, dt: Fixed)
    requires
        w.bodies().is_mover(id),
    ensures
        spec_physics_step(w, dt).positions[id].y.raw >= 0,
        spec_physics_step(w, dt).positions[id].y.raw == 0 ==> spec_physics_step(
            w,
            dt,
        ).groundables[id] && spec_physics_step(w, dt).velocities[id].y.raw == 0,
{
    reveal(spec_staged);
}

/// An entity without a box that rests on the floor stays there: a tick of
/// any length from zero up leaves it on the floor, at rest vertically and
/// grounded.
pub proof fn lemma_rest_on_floor_stays(w: WorldView, id: ID, dt: Fixed)
    requires
        w.bodies().is_mover(id),
        !w.collisions.contains_key(id),
        w.positions[id].y.raw == 0,
        w.velocities[id].y.raw == 0,
        dt.raw >= 0,
    ensures
        spec_physics_step(w, dt).positions[id].y.raw == 0,
        spec_physics_step(w, dt).velocities[id].y.raw == 0,
        spec_physics_step(w, dt).groundables[id],
{
    reveal(spec_staged);
    let fall = (Fixed { raw: crate::physics::GRAVITY_RAW }).spec_mul(dt);
    assert(fall.raw >= 0) by {
        lemma_product_sign(crate::physics::GRAVITY_RAW as int, dt.raw as int);
    }
    let next_vel_y = w.velocities[id].y.spec_sub(fall);
    assert(next_vel_y.raw <= 0);
    assert(next_vel_y.spec_mul(dt).raw <= 0) by {
        lemma_product_sign(-next_vel_y.raw, dt.raw as int);
        assert(next_vel_y.raw * dt.raw == -((-next_vel_y.raw) * dt.raw)) by (nonlinear_arith);
    }
}

/// The product of two numbers that are not negative is not negative, and
/// neither is its quotient by a positive number.
proof fn lemma_product_sign(a: int, b: int)
    requires
        a >= 0,
        b >= 0,
    ensures
        a * b >= 0,
        (a * b) / (crate::fixed::SCALE as int) >= 0,
{
    assert(a * b >= 0) by (nonlinear_arith)
        requires
            a >= 0,
            b >= 0,
    ;
}

/// A tick neither reads nor writes the cameras and the collision record:
/// with others in their place it does the same to everything else.
pub proof fn lemma_tick_ignores_cameras(w: WorldView, cameras: Map<ID, Camera>, record: Set<ID>)
    ensures
        spec_tick(WorldView { cameras, statics_collisions: record, ..w }) == (WorldView {
            cameras,
            statics_collisions: record,
            ..spec_tick(w)
        }),
        spec_tick(w).cameras == w.cameras,
        spec_tick(w).statics_collisions == w.statics_collisions,
        spec_tick(w).current_camera == w.current_camera,
        spec_tick(w).current_player == w.current_player,
        spec_tick(w).positions.dom() == w.positions.dom(),
{
    let dt = Fixed { raw: TICK_RAW };
    let other = WorldView { cameras, statics_collisions: record, ..w };
    assert(other.bodies() == w.bodies());
    let stepped = spec_physics_step(w, dt);
    let stepped_other = spec_physics_step(other, dt);
    assert(stepped_other.positions =~= stepped.positions);
    assert(stepped_other.velocities =~= stepped.velocities);
    assert(stepped_other.groundables =~= stepped.groundables);
    assert(stepped_other == (WorldView { cameras, statics_collisions: record, ..stepped }));
    assert(spec_mover_blocks(stepped_other, dt).positions =~= spec_mover_blocks(
        stepped,
        dt,
    ).positions);
    assert(spec_tick(w).positions.dom() =~= w.positions.dom());
}

/// The same of any number of ticks, and of the colliders run into on the
/// way.
pub proof fn lemma_run_ignores_cameras(
    w: WorldView,
    cameras: Map<ID, Camera>,
    record: Set<ID>,
    ticks: nat,
)
    ensures
        spec_run(WorldView { cameras, statics_collisions: record, ..w }, ticks) == (WorldView {
            cameras,
            statics_collisions: record,
            ..spec_run(w, ticks)
        }),
        spec_run_contacts(WorldView { cameras, statics_collisions: record, ..w }, ticks)
            == spec_run_contacts(w, ticks),
        spec_run(w, ticks).cameras == w.cameras,
        spec_run(w, ticks).statics_collisions == w.statics_collisions,
        spec_run(w, ticks).current_camera == w.current_camera,
        spec_run(w, ticks).current_player == w.current_player,
        spec_run(w, ticks).positions.dom() == w.positions.dom(),
    decreases ticks,
{
    if ticks > 0 {
        let fewer = (ticks - 1) as nat;
        lemma_run_ignores_cameras(w, cameras, record, fewer);
        lemma_tick_ignores_cameras(spec_run(w, fewer), cameras, record);
        let other = WorldView { cameras, statics_collisions: record, ..w };
        assert(spec_run(other, fewer).bodies() == spec_run(w, fewer).bodies());
    }
}

/// Ticks add up: running `a` ticks and then `b` more is running `a + b`,
/// for the world and for the colliders run into.
pub proof fn lemma_run_splits(w: WorldView, a: nat, b: nat)
    ensures
        spec_run(spec_run(w, a), b) == spec_run(w, a + b),
        spec_run_contacts(w, a).union(spec_run_contacts(spec_run(w, a), b)) == spec_run_contacts(
            w,
            a + b,
        ),
    decreases b,
{
    if b == 0 {
        assert(spec_run_contacts(w, a).union(Set::empty()) =~= spec_run_contacts(w, a));
    } else {
        let fewer = (b - 1) as nat;
        lemma_run_splits(w, a, fewer);
        assert((a + b - 1) as nat == a + fewer);
        let last = crate::physics::spec_step_contacts(
            spec_run(w, a + fewer).bodies(),
            Fixed { raw: TICK_RAW },
        );
        assert(spec_run_contacts(w, a).union(
            spec_run_contacts(spec_run(w, a), fewer).union(last),
        ) =~= spec_run_contacts(w, a).union(spec_run_contacts(spec_run(w, a), fewer)).union(last));
    }
}

/// Time is conserved across calls: giving the simulation `first`
/// nanoseconds, and then what was left of them together with `second`
/// more, runs as many ticks, leaves as much time and ends in the same world
/// as giving it `first + second` at once. Only the collision record
/// differs: each call keeps its own, and the two together are the record of
/// the single call.
pub proof fn lemma_accumulator_conservation(w: WorldView, first: nat, second: nat)
    ensures
        ({
            let carried = spec_leftover(first) + second;
            let a = spec_simulation(w, first);
            let b = spec_simulation(a, carried);
            let once = spec_simulation(w, first + second);
            &&& spec_ticks_in(first) + spec_ticks_in(carried) == spec_ticks_in(first + second)
            &&& spec_leftover(carried) == spec_leftover(first + second)
            &&& b == (WorldView { statics_collisions: b.statics_collisions, ..once })
            &&& a.statics_collisions.union(b.statics_collisions) == once.statics_collisions
        }),
{
    let carried = spec_leftover(first) + second;
    let n1 = spec_ticks_in(first);
    let n2 = spec_ticks_in(carried);
    assert(TICK_NANOS == 10_000_000);
    assert(n1 + n2 == spec_ticks_in(first + second));
    assert(spec_leftover(carried) == spec_leftover(first + second));
    let a = spec_simulation(w, first);
    let ran1 = spec_run(w, n1);
    let followed1 = spec_follow(ran1);
    lemma_run_ignores_cameras(w, followed1.cameras, a.statics_collisions, n1);
    lemma_run_ignores_cameras(w, followed1.cameras, a.statics_collisions, n1 + n2);
    assert(a == (WorldView {
        cameras: followed1.cameras,
        statics_collisions: a.statics_collisions,
        ..ran1
    }));
    lemma_run_ignores_cameras(ran1, followed1.cameras, a.statics_collisions, n2);
    lemma_run_splits(w, n1, n2);
    let ran = spec_run(w, n1 + n2);
    assert(spec_run(a, n2) == (WorldView {
        cameras: followed1.cameras,
        statics_collisions: a.statics_collisions,
        ..ran
    }));
    let b = spec_simulation(a, carried);
    let once = spec_simulation(w, first + second);
    assert(b.cameras =~= once.cameras);
}

/// Less than a tick of time runs no tick: nothing moves, and all of the
/// time is left.
pub proof fn lemma_short_time_runs_no_tick(w: WorldView, nanos: nat)
    requires
        nanos < TICK_NANOS,
    ensures
        spec_ticks_in(nanos) == 0,
        spec_leftover(nanos) == nanos,
        spec_simulation(w, nanos) == (WorldView {
            statics_collisions: Set::empty(),
            ..spec_follow(w)
        }),
        spec_simulation(w, nanos).bodies() == w.bodies(),
        spec_simulation(w, nanos).groundables == w.groundables,
{
}

} // verus!
