//! Motion under gravity, collision detection and axis-separated backout,
//! and the fixed-timestep scheduler that drives them.

use crate::camera::Camera;
use crate::common::Vec2;
use crate::components::{Bodies, Collision, Position, Velocity, World, WorldView, ID};
use crate::fixed::{magnitude, Fixed};
use crate::platforms::{mover_blocks, spec_mover_blocks};
use crate::registry::{lemma_prefix_step, lemma_prefix_whole, lemma_push_contains, set_members};
use std::collections::HashSet;
use vstd::prelude::*;

verus! {

broadcast use vstd::std_specs::hash::group_hash_axioms;

/// Downward acceleration, in raw steps: 500 world units per second squared.
pub const GRAVITY_RAW: i64 = 500_000_000;

/// Length of one simulation tick in nanoseconds: 10 ms.
pub const TICK_NANOS: u64 = 10_000_000;

/// Length of one simulation tick in raw steps of a second.
pub const TICK_RAW: i64 = 10_000;

/// Velocity and position one step of `dt` seconds later, colliding with
/// nothing: gravity changes the velocity first, and the position then moves
/// by the new velocity.
pub open spec fn spec_movement_update(position: Position, velocity: Velocity, dt: Fixed) -> (
    Position,
    Velocity,
) {
    let fall = Vec2 { x: Fixed { raw: 0 }, y: (Fixed { raw: GRAVITY_RAW }).spec_mul(dt) };
    let next_vel = velocity.spec_sub(fall);
    (position.spec_add(next_vel.spec_scale(dt)), next_vel)
}

pub fn movement_update(position: &Position, velocity: &Velocity, dt: Fixed) -> (next: (
    Position,
    Velocity,
))
    ensures
        next == spec_movement_update(*position, *velocity, dt),
{
    let gravity = Fixed { raw: GRAVITY_RAW };
    let next_vel = velocity.sub(Vec2 { x: Fixed::zero(), y: gravity.mul(dt) });
    let dpos = next_vel.scale(dt);
    (position.add(dpos), next_vel)
}

/// The camera takes over the horizontal position of what it follows.
pub fn camera_follow(camera_pos: &mut Position, following_pos: &Position)
    ensures
        final(camera_pos).x == following_pos.x,
        final(camera_pos).y == old(camera_pos).y,
{
    camera_pos.x = following_pos.x;
}

/// The component of a penetration vector along one axis.
pub open spec fn depth_of(v: Vec2, vertical: bool) -> Fixed {
    if vertical {
        v.y
    } else {
        v.x
    }
}

/// A penetration depth opposes a movement when it points the other way.
/// `rising` says that the movement goes up the axis or stands still.
pub open spec fn opposes(depth: Fixed, rising: bool) -> bool {
    (depth.raw >= 0) != rising
}

/// Whether `d` is, along one axis, the deepest among the penetrations in
/// `hits` that oppose the movement.
pub open spec fn is_deepest_opposing(
    hits: Set<(ID, Vec2)>,
    vertical: bool,
    rising: bool,
    d: Fixed,
) -> bool {
    &&& opposes(d, rising)
    &&& exists|h: (ID, Vec2)| hits.contains(h) && depth_of(h.1, vertical) == d
    &&& forall|h: (ID, Vec2)|
        hits.contains(h) && opposes(depth_of(h.1, vertical), rising) ==> magnitude(
            depth_of(h.1, vertical).raw as int,
        ) <= magnitude(d.raw as int)
}

/// The correction along one axis that the penetrations in `hits` call for:
/// the deepest one that opposes the movement, or zero when none opposes it.
pub open spec fn spec_backout(hits: Set<(ID, Vec2)>, vertical: bool, rising: bool) -> Fixed {
    if exists|d: Fixed| is_deepest_opposing(hits, vertical, rising, d) {
        choose|d: Fixed| is_deepest_opposing(hits, vertical, rising, d)
    } else {
        Fixed { raw: 0 }
    }
}

/// There is at most one deepest opposing penetration.
pub proof fn lemma_deepest_opposing_unique(
    hits: Set<(ID, Vec2)>,
    vertical: bool,
    rising: bool,
    d1: Fixed,
    d2: Fixed,
)
    requires
        is_deepest_opposing(hits, vertical, rising, d1),
        is_deepest_opposing(hits, vertical, rising, d2),
    ensures
        d1 == d2,
{
    let h1 = choose|h: (ID, Vec2)| hits.contains(h) && depth_of(h.1, vertical) == d1;
    let h2 = choose|h: (ID, Vec2)| hits.contains(h) && depth_of(h.1, vertical) == d2;
    assert(magnitude(depth_of(h1.1, vertical).raw as int) <= magnitude(d2.raw as int));
    assert(magnitude(depth_of(h2.1, vertical).raw as int) <= magnitude(d1.raw as int));
}

/// A deepest opposing penetration is the correction.
pub proof fn lemma_backout_is(hits: Set<(ID, Vec2)>, vertical: bool, rising: bool, d: Fixed)
    requires
        is_deepest_opposing(hits, vertical, rising, d),
    ensures
        spec_backout(hits, vertical, rising) == d,
{
    lemma_deepest_opposing_unique(
        hits,
        vertical,
        rising,
        d,
        spec_backout(hits, vertical, rising),
    );
}

/// Picks the correction along one axis out of a list of penetrations.
///
/// Against a movement up the axis that is the least of zero and all the
/// depths, against one down the axis the greatest.
pub fn deepest_opposing(hits: &Vec<(ID, Vec2)>, vertical: bool, rising: bool) -> (backout: Fixed)
    ensures
        backout == spec_backout(hits@.to_set(), vertical, rising),
        backout.raw == 0 || exists|j: int|
            0 <= j < hits@.len() && depth_of(#[trigger] hits@[j].1, vertical) == backout,
        rising ==> backout.raw <= 0 && forall|j: int|
            0 <= j < hits@.len() ==> backout.raw <= depth_of(#[trigger] hits@[j].1, vertical).raw,
        !rising ==> backout.raw >= 0 && forall|j: int|
            0 <= j < hits@.len() ==> depth_of(#[trigger] hits@[j].1, vertical).raw <= backout.raw,
{
    let mut backout = Fixed::zero();
    let mut i: usize = 0;
    while i < hits.len()
        invariant
            0 <= i <= hits.len(),
            forall|j: int|
                0 <= j < i && opposes(depth_of(#[trigger] hits@[j].1, vertical), rising)
                    ==> magnitude(depth_of(hits@[j].1, vertical).raw as int) <= magnitude(
                    backout.raw as int,
                ),
            backout.raw == 0 || exists|j: int|
                0 <= j < i && depth_of(#[trigger] hits@[j].1, vertical) == backout && opposes(
                    backout,
                    rising,
                ),
        decreases hits.len() - i,
    {
        let depth = if vertical {
            hits[i].1.y
        } else {
            hits[i].1.x
        };
        if (depth.raw >= 0) != rising && depth.magnitude() > backout.magnitude() {
            backout = depth;
            assert(depth_of(hits@[i as int].1, vertical) == backout);
        }
        i += 1;
    }
    proof {
        let set = hits@.to_set();
        assert forall|h: (ID, Vec2)|
            set.contains(h) && opposes(depth_of(h.1, vertical), rising) implies magnitude(
            depth_of(h.1, vertical).raw as int,
        ) <= magnitude(backout.raw as int) by {
            let j = choose|j: int| 0 <= j < hits@.len() && hits@[j] == h;
            assert(depth_of(hits@[j].1, vertical) == depth_of(h.1, vertical));
        }
        if backout.raw != 0 {
            let j = choose|j: int|
                0 <= j < hits@.len() && depth_of(#[trigger] hits@[j].1, vertical) == backout
                    && opposes(backout, rising);
            assert(set.contains(hits@[j]));
            lemma_backout_is(set, vertical, rising, backout);
        } else if exists|d: Fixed| is_deepest_opposing(set, vertical, rising, d) {
            let d = choose|d: Fixed| is_deepest_opposing(set, vertical, rising, d);
            let h = choose|h: (ID, Vec2)| set.contains(h) && depth_of(h.1, vertical) == d;
            assert(magnitude(depth_of(h.1, vertical).raw as int) <= 0);
        }
    }
    backout
}

/// The penetration of the box `coll`, placed at `at`, into the entity
/// `other`, where `other` is a collider apart from the mover itself and the
/// two boxes intersect. The other entity stands where the world has it.
pub open spec fn spec_hit(
    b: Bodies,
    mover_id: ID,
    coll: Collision,
    at: Position,
    other: ID,
) -> Option<Vec2> {
    if other != mover_id && b.is_collider(other) {
        coll.spec_offset(at).spec_intersect(b.collisions[other].spec_offset(b.positions[other]))
    } else {
        None
    }
}

/// Every collider that the box `coll`, placed at `at`, penetrates, with the
/// penetration vector.
pub open spec fn spec_hits(b: Bodies, mover_id: ID, coll: Collision, at: Position) -> Set<
    (ID, Vec2),
> {
    Set::new(|h: (ID, Vec2)| spec_hit(b, mover_id, coll, at, h.0) == Some(h.1))
}

/// Finds the colliders that the mover's box would penetrate if the mover
/// stood at `mover_pos`, each once, in no particular order.
pub fn find_collisions(
    w: &World,
    mover_id: ID,
    mover_collision: &Collision,
    mover_pos: &Position,
) -> (collisions: Vec<(ID, Vec2)>)
    ensures
        collisions@.no_duplicates(),
        collisions@.to_set() == spec_hits(w@.bodies(), mover_id, *mover_collision, *mover_pos),
{
    let mut collisions: Vec<(ID, Vec2)> = Vec::new();
    let ids = set_members(&w.entities);
    let mut i: usize = 0;
    while i < ids.len()
        invariant
            0 <= i <= ids.len(),
            ids@.no_duplicates(),
            ids@.to_set() == w@.entities,
            collisions@.no_duplicates(),
            forall|h: (ID, Vec2)|
                #![trigger collisions@.contains(h)]
                collisions@.contains(h) <==> (ids@.subrange(0, i as int).contains(h.0) && spec_hit(
                    w@.bodies(),
                    mover_id,
                    *mover_collision,
                    *mover_pos,
                    h.0,
                ) == Some(h.1)),
        decreases ids.len() - i,
    {
        let id = ids[i];
        let ghost found_before = collisions@;
        proof {
            lemma_prefix_step(ids@, i as int);
            assert(ids@.to_set().contains(id));
        }
        let mut found: Option<Vec2> = None;
        if id != mover_id {
            if let Some((pos, coll)) = w.get_collider_entity(id) {
                let mover_abs = mover_collision.offset(*mover_pos);
                let coll_abs = coll.offset(*pos);
                found = mover_abs.intersect(&coll_abs);
            }
        }
        assert(found == spec_hit(w@.bodies(), mover_id, *mover_collision, *mover_pos, id));
        if let Some(isect) = found {
            proof {
                lemma_push_contains(found_before, (id, isect));
            }
            collisions.push((id, isect));
        }
        assert forall|h: (ID, Vec2)| #![trigger collisions@.contains(h)]
            collisions@.contains(h) <==> (ids@.subrange(0, i as int + 1).contains(h.0) && spec_hit(
                w@.bodies(),
                mover_id,
                *mover_collision,
                *mover_pos,
                h.0,
            ) == Some(h.1)) by {
            assert(found_before.contains(h) <==> (ids@.subrange(0, i as int).contains(h.0)
                && spec_hit(w@.bodies(), mover_id, *mover_collision, *mover_pos, h.0) == Some(h.1)));
        }
        i += 1;
    }
    proof {
        lemma_prefix_whole(ids@);
        lemma_prefix_whole(collisions@);
        let want = spec_hits(w@.bodies(), mover_id, *mover_collision, *mover_pos);
        assert forall|h: (ID, Vec2)| collisions@.to_set().contains(h) <==> want.contains(h) by {
            if want.contains(h) {
                assert(w@.entities.contains(h.0));
                assert(ids@.to_set().contains(h.0));
            }
        }
        assert(collisions@.to_set() =~= want);
    }
    collisions
}

/// What a tick works out for one moving entity before anything is written
/// back to the world.
#[derive(Clone, Copy, PartialEq, Eq, Debug, Structural)]
pub struct UpdateContainer {
    /// Where the entity stood before the tick.
    pub pos: Vec2,
    pub next_pos: Vec2,
    pub next_vel: Vec2,
    pub grounded: bool,
}

/// The colliders that the box `coll`, placed at `at`, penetrates.
pub open spec fn spec_touched(b: Bodies, mover_id: ID, coll: Collision, at: Position) -> Set<
    ID,
> {
    Set::new(|other: ID| spec_hit(b, mover_id, coll, at, other) is Some)
}

/// Where the horizontal part of the resolution tests for collisions: moved
/// along x, not yet along y.
pub open spec fn spec_test_x(u: UpdateContainer) -> Position {
    Vec2 { x: u.next_pos.x, y: u.pos.y }
}

/// Where the vertical part tests: at the corrected x, moved along y.
pub open spec fn spec_test_y(b: Bodies, id: ID, coll: Collision, u: UpdateContainer) -> Position {
    let rising = u.next_pos.x.raw >= u.pos.x.raw;
    let backout = spec_backout(spec_hits(b, id, coll, spec_test_x(u)), false, rising);
    Vec2 { x: u.next_pos.x.spec_add(backout), y: u.next_pos.y }
}

/// The staged update `u` of the entity `id` after its box `coll` was backed
/// out of the colliders, first along x, then along y at the corrected x.
///
/// A vertical collision while moving down lands the entity: it is grounded
/// and its vertical velocity is zero. Any other vertical collision takes
/// away the upward part of its velocity. The horizontal velocity stays.
pub open spec fn spec_resolve(b: Bodies, id: ID, coll: Collision, u: UpdateContainer) -> UpdateContainer {
    let at = spec_test_y(b, id, coll, u);
    let hits = spec_hits(b, id, coll, at);
    if exists|h: (ID, Vec2)| hits.contains(h) {
        let rising = u.next_pos.y.raw >= u.pos.y.raw;
        let y = at.y.spec_add(spec_backout(hits, true, rising));
        if u.next_pos.y.raw < u.pos.y.raw {
            UpdateContainer {
                next_pos: Vec2 { x: at.x, y },
                next_vel: Vec2 { x: u.next_vel.x, y: Fixed { raw: 0 } },
                grounded: true,
                ..u
            }
        } else {
            UpdateContainer {
                next_pos: Vec2 { x: at.x, y },
                next_vel: Vec2 {
                    x: u.next_vel.x,
                    y: if u.next_vel.y.raw < 0 {
                        u.next_vel.y
                    } else {
                        Fixed { raw: 0 }
                    },
                },
                ..u
            }
        }
    } else {
        UpdateContainer { next_pos: at, ..u }
    }
}

/// The colliders that the resolution of `u` runs into, in either part.
pub open spec fn spec_resolve_contacts(
    b: Bodies,
    id: ID,
    coll: Collision,
    u: UpdateContainer,
) -> Set<ID> {
    spec_touched(b, id, coll, spec_test_x(u)).union(
        spec_touched(b, id, coll, spec_test_y(b, id, coll, u)),
    )
}

/// Whether the list of penetrations has one into the collider `other`.
spec fn names(hits: Seq<(ID, Vec2)>, other: ID) -> bool {
    exists|v: Vec2| hits.contains((other, v))
}

/// Adds the colliders named in `hits` to `contacts`.
fn note_contacts(hits: &Vec<(ID, Vec2)>, contacts: &mut HashSet<ID>)
    ensures
        forall|other: ID|
            final(contacts)@.contains(other) <==> (old(contacts)@.contains(other) || names(
                hits@,
                other,
            )),
{
    let mut i: usize = 0;
    while i < hits.len()
        invariant
            0 <= i <= hits.len(),
            forall|other: ID|
                contacts@.contains(other) <==> (old(contacts)@.contains(other) || names(
                    hits@.subrange(0, i as int),
                    other,
                )),
        decreases hits.len() - i,
    {
        let ghost done = hits@.subrange(0, i as int);
        let ghost more = hits@.subrange(0, i as int + 1);
        let ghost noted = contacts@;
        proof {
            lemma_prefix_step(hits@, i as int);
        }
        contacts.insert(hits[i].0);
        assert forall|other: ID|
            contacts@.contains(other) <==> (old(contacts)@.contains(other) || names(
                more,
                other,
            )) by {
            assert(noted.contains(other) <==> (old(contacts)@.contains(other) || names(
                done,
                other,
            )));
            if other == hits@[i as int].0 {
                assert(more[i as int] == (other, hits@[i as int].1));
                assert(more.contains((other, hits@[i as int].1)));
            }
            if names(done, other) {
                let v = choose|v: Vec2| done.contains((other, v));
                assert(more.contains((other, v)));
            }
            if names(more, other) {
                let v = choose|v: Vec2| more.contains((other, v));
                assert(done.contains((other, v)) || (other, v) == hits@[i as int]);
            }
        }
        i += 1;
    }
    proof {
        lemma_prefix_whole(hits@);
    }
}

/// Backs the staged update of the entity `mover_id` out of the colliders it
/// runs into, and records those colliders in `contacts`.
pub fn resolve_collisions(
    w: &World,
    mover_id: ID,
    mover_collision: &Collision,
    update: UpdateContainer,
    contacts: &mut HashSet<ID>,
) -> (resolved: UpdateContainer)
    ensures
        resolved == spec_resolve(w@.bodies(), mover_id, *mover_collision, update),
        final(contacts)@ == old(contacts)@.union(
            spec_resolve_contacts(w@.bodies(), mover_id, *mover_collision, update),
        ),
{
    let mut resolved = update;
    // First move along x alone, and back out of what that runs into.
    let mut test_pos = Vec2 { x: update.next_pos.x, y: update.pos.y };
    let found_collisions = find_collisions(w, mover_id, mover_collision, &test_pos);
    let x_rising = update.next_pos.x.raw >= update.pos.x.raw;
    let backout = deepest_opposing(&found_collisions, false, x_rising);
    note_contacts(&found_collisions, contacts);
    test_pos.x = test_pos.x.add(backout);
    let ghost noted_x = contacts@;
    let ghost hits_x = spec_hits(w@.bodies(), mover_id, *mover_collision, spec_test_x(update));
    proof {
        lemma_prefix_whole(found_collisions@);
        assert forall|other: ID|
            noted_x.contains(other) <==> (old(contacts)@.contains(other) || spec_touched(
                w@.bodies(),
                mover_id,
                *mover_collision,
                spec_test_x(update),
            ).contains(other)) by {
            if spec_hit(w@.bodies(), mover_id, *mover_collision, spec_test_x(update), other) is Some {
                let v = spec_hit(w@.bodies(), mover_id, *mover_collision, spec_test_x(update), other)->0;
                assert(hits_x.contains((other, v)));
                assert(found_collisions@.contains((other, v)));
            }
            if names(found_collisions@, other) {
                let v = choose|v: Vec2| found_collisions@.contains((other, v));
                assert(found_collisions@.to_set().contains((other, v)));
                assert(hits_x.contains((other, v)));
            }
        }
    }

    // Then move along y from the corrected x.
    test_pos.y = update.next_pos.y;
    assert(test_pos == spec_test_y(w@.bodies(), mover_id, *mover_collision, update));
    let found_collisions = find_collisions(w, mover_id, mover_collision, &test_pos);
    let ghost hits_y = spec_hits(w@.bodies(), mover_id, *mover_collision, test_pos);
    note_contacts(&found_collisions, contacts);
    proof {
        lemma_prefix_whole(found_collisions@);
        assert forall|other: ID|
            contacts@.contains(other) <==> (noted_x.contains(other) || spec_touched(
                w@.bodies(),
                mover_id,
                *mover_collision,
                test_pos,
            ).contains(other)) by {
            if spec_hit(w@.bodies(), mover_id, *mover_collision, test_pos, other) is Some {
                let v = spec_hit(w@.bodies(), mover_id, *mover_collision, test_pos, other)->0;
                assert(hits_y.contains((other, v)));
                assert(found_collisions@.contains((other, v)));
            }
            if names(found_collisions@, other) {
                let v = choose|v: Vec2| found_collisions@.contains((other, v));
                assert(found_collisions@.to_set().contains((other, v)));
                assert(hits_y.contains((other, v)));
            }
        }
        let both = old(contacts)@.union(
            spec_resolve_contacts(w@.bodies(), mover_id, *mover_collision, update),
        );
        assert forall|other: ID| contacts@.contains(other) <==> both.contains(other) by {
            assert(noted_x.contains(other) <==> (old(contacts)@.contains(other) || spec_touched(
                w@.bodies(),
                mover_id,
                *mover_collision,
                spec_test_x(update),
            ).contains(other)));
            assert(contacts@.contains(other) <==> (noted_x.contains(other) || spec_touched(
                w@.bodies(),
                mover_id,
                *mover_collision,
                test_pos,
            ).contains(other)));
        }
        assert(contacts@ =~= both);
    }
    if found_collisions.len() > 0 {
        proof {
            assert(found_collisions@.contains(found_collisions@[0]));
            assert(hits_y.contains(found_collisions@[0]));
        }
        let y_rising = update.next_pos.y.raw >= update.pos.y.raw;
        let backout = deepest_opposing(&found_collisions, true, y_rising);
        test_pos.y = test_pos.y.add(backout);
        if update.next_pos.y.raw < update.pos.y.raw {
            // landed
            resolved.grounded = true;
            resolved.next_vel.y = Fixed::zero();
        } else if resolved.next_vel.y.raw > 0 {
            // hit a ceiling
            resolved.next_vel.y = Fixed::zero();
        }
    } else {
        proof {
            assert forall|h: (ID, Vec2)| !hits_y.contains(h) by {
                if hits_y.contains(h) {
                    assert(found_collisions@.to_set().contains(h));
                    assert(found_collisions@.contains(h));
                }
            }
        }
    }
    resolved.next_pos = test_pos;
    resolved
}

/// The world has a floor at height zero: an update that ends at or below it
/// is put on it, at rest vertically and grounded.
pub open spec fn spec_floor_clamp(u: UpdateContainer) -> UpdateContainer {
    if u.next_pos.y.raw <= 0 {
        UpdateContainer {
            next_pos: Vec2 { x: u.next_pos.x, y: Fixed { raw: 0 } },
            next_vel: Vec2 { x: u.next_vel.x, y: Fixed { raw: 0 } },
            grounded: true,
            ..u
        }
    } else {
        u
    }
}

pub fn floor_clamp(u: UpdateContainer) -> (clamped: UpdateContainer)
    ensures
        clamped == spec_floor_clamp(u),
{
    let mut clamped = u;
    if clamped.next_pos.y.raw <= 0 {
        clamped.next_pos.y = Fixed::zero();
        clamped.next_vel.y = Fixed::zero();
        clamped.grounded = true;
    }
    clamped
}

/// The update of the moving entity `id` for a tick of `dt` seconds, before
/// it meets anything.
pub open spec fn spec_integrated(b: Bodies, id: ID, dt: Fixed) -> UpdateContainer {
    let next = spec_movement_update(b.positions[id], b.velocities[id], dt);
    UpdateContainer { pos: b.positions[id], next_pos: next.0, next_vel: next.1, grounded: false }
}

/// The update that a tick of `dt` seconds stages for the moving entity `id`:
/// moved under gravity, backed out of the colliders if the entity has a box,
/// and kept above the floor.
#[verifier::opaque]
pub open spec fn spec_staged(b: Bodies, id: ID, dt: Fixed) -> UpdateContainer {
    let u = spec_integrated(b, id, dt);
    spec_floor_clamp(
        if b.collisions.contains_key(id) {
            spec_resolve(b, id, b.collisions[id], u)
        } else {
            u
        },
    )
}

/// The colliders that the entity `id` runs into during a tick; none unless
/// it moves and has a box.
#[verifier::opaque]
pub open spec fn spec_entity_contacts(b: Bodies, id: ID, dt: Fixed) -> Set<ID> {
    if b.positions.contains_key(id) && b.velocities.contains_key(id) && b.collisions.contains_key(
        id,
    ) {
        spec_resolve_contacts(b, id, b.collisions[id], spec_integrated(b, id, dt))
    } else {
        Set::empty()
    }
}

/// The colliders that any entity runs into during a tick.
pub open spec fn spec_step_contacts(b: Bodies, dt: Fixed) -> Set<ID> {
    Set::new(
        |other: ID|
            exists|id: ID| b.entities.contains(id) && spec_entity_contacts(b, id, dt).contains(other),
    )
}

/// The world after one tick of physics of `dt` seconds.
///
/// Every moving entity takes the position and velocity staged for it and is
/// marked grounded or not; every update is worked out against the world as
/// it stood before the tick. Everything else stays.
pub open spec fn spec_physics_step(w: WorldView, dt: Fixed) -> WorldView {
    WorldView {
        positions: Map::new(
            |id: ID| w.positions.contains_key(id),
            |id: ID|
                if w.bodies().is_mover(id) {
                    spec_staged(w.bodies(), id, dt).next_pos
                } else {
                    w.positions[id]
                },
        ),
        velocities: Map::new(
            |id: ID| w.velocities.contains_key(id),
            |id: ID|
                if w.bodies().is_mover(id) {
                    spec_staged(w.bodies(), id, dt).next_vel
                } else {
                    w.velocities[id]
                },
        ),
        groundables: Map::new(
            |id: ID| w.groundables.contains_key(id) || w.bodies().is_mover(id),
            |id: ID|
                if w.bodies().is_mover(id) {
                    spec_staged(w.bodies(), id, dt).grounded
                } else {
                    w.groundables[id]
                },
        ),
        ..w
    }
}

/// Works out the update of the entity `id` for a tick of `dt` seconds, if it
/// moves, and records the colliders it runs into.
fn stage_entity(w: &World, id: ID, dt: Fixed, contacts: &mut HashSet<ID>) -> (staged: Option<
    UpdateContainer,
>)
    ensures
        match staged {
            Some(u) => w@.positions.contains_key(id) && w@.velocities.contains_key(id) && u
                == spec_staged(w@.bodies(), id, dt),
            None => !(w@.positions.contains_key(id) && w@.velocities.contains_key(id)),
        },
        final(contacts)@ == old(contacts)@.union(spec_entity_contacts(w@.bodies(), id, dt)),
{
    proof {
        reveal(spec_staged);
        reveal(spec_entity_contacts);
    }
    let mut update = match w.get_moving_entity(id) {
        Some((pos, vel)) => {
            let (next_pos, next_vel) = movement_update(pos, vel, dt);
            UpdateContainer { pos: *pos, next_pos, next_vel, grounded: false }
        },
        None => {
            assert(contacts@ =~= old(contacts)@.union(spec_entity_contacts(w@.bodies(), id, dt)));
            return None;
        },
    };
    // Nothing to back out of where the mover has no box.
    match w.collisions.get(&id) {
        Some(mover_collision) => {
            update = resolve_collisions(w, id, mover_collision, update, contacts);
        },
        None => {
            assert(contacts@ =~= old(contacts)@.union(spec_entity_contacts(w@.bodies(), id, dt)));
        },
    }
    Some(floor_clamp(update))
}

/// Whether the list of updates has one for the entity `id`.
spec fn has_update(updates: Seq<(ID, UpdateContainer)>, id: ID) -> bool {
    exists|k: int| 0 <= k < updates.len() && updates[k].0 == id
}

proof fn lemma_has_update_step(updates: Seq<(ID, UpdateContainer)>, j: int)
    requires
        0 <= j < updates.len(),
    ensures
        forall|id: ID|
            has_update(updates.subrange(0, j + 1), id) <==> (has_update(
                updates.subrange(0, j),
                id,
            ) || id == updates[j].0),
{
    let done = updates.subrange(0, j);
    let more = updates.subrange(0, j + 1);
    assert forall|id: ID| has_update(more, id) <==> (has_update(done, id) || id == updates[j].0) by {
        if has_update(more, id) {
            let k = choose|k: int| 0 <= k < more.len() && more[k].0 == id;
            if k < j {
                assert(done[k].0 == id);
            }
        }
        if has_update(done, id) {
            let k = choose|k: int| 0 <= k < done.len() && done[k].0 == id;
            assert(more[k].0 == id);
        }
        if id == updates[j].0 {
            assert(more[j].0 == id);
        }
    }
}

/// Writes the staged updates of a tick back to the world, all at once.
fn commit(w: &mut World, updates: &Vec<(ID, UpdateContainer)>, dt: Fixed)
    requires
        forall|k: int|
            0 <= k < updates@.len() ==> old(w)@.bodies().is_mover(#[trigger] updates@[k].0) && updates@[k].1
                == spec_staged(old(w)@.bodies(), updates@[k].0, dt),
        forall|id: ID| old(w)@.bodies().is_mover(id) ==> has_update(updates@, id),
    ensures
        final(w)@ == spec_physics_step(old(w)@, dt),
{
    let ghost before = w@;
    let mut j: usize = 0;
    while j < updates.len()
        invariant
            0 <= j <= updates.len(),
            forall|k: int|
                0 <= k < updates@.len() ==> before.bodies().is_mover(#[trigger] updates@[k].0)
                    && updates@[k].1 == spec_staged(before.bodies(), updates@[k].0, dt),
            w@ == (WorldView {
                positions: w@.positions,
                velocities: w@.velocities,
                groundables: w@.groundables,
                ..before
            }),
            w@.positions.dom() == before.positions.dom(),
            w@.velocities.dom() == before.velocities.dom(),
            forall|id: ID|
                before.positions.contains_key(id) ==> #[trigger] w@.positions[id] == if has_update(
                    updates@.subrange(0, j as int),
                    id,
                ) {
                    spec_staged(before.bodies(), id, dt).next_pos
                } else {
                    before.positions[id]
                },
            forall|id: ID|
                before.velocities.contains_key(id) ==> #[trigger] w@.velocities[id]
                    == if has_update(updates@.subrange(0, j as int), id) {
                    spec_staged(before.bodies(), id, dt).next_vel
                } else {
                    before.velocities[id]
                },
            forall|id: ID|
                #[trigger] w@.groundables.contains_key(id) <==> (before.groundables.contains_key(id)
                    || has_update(updates@.subrange(0, j as int), id)),
            forall|id: ID|
                w@.groundables.contains_key(id) ==> #[trigger] w@.groundables[id] == if has_update(
                    updates@.subrange(0, j as int),
                    id,
                ) {
                    spec_staged(before.bodies(), id, dt).grounded
                } else {
                    before.groundables[id]
                },
        decreases updates.len() - j,
    {
        let id = updates[j].0;
        let update = updates[j].1;
        proof {
            lemma_has_update_step(updates@, j as int);
            assert(before.bodies().is_mover(updates@[j as int].0));
        }
        w.positions.insert(id, update.next_pos);
        w.velocities.insert(id, update.next_vel);
        w.groundables.insert(id, update.grounded);
        proof {
            assert(w@.positions.dom() =~= before.positions.dom());
            assert(w@.velocities.dom() =~= before.velocities.dom());
        }
        j += 1;
    }
    proof {
        let after = spec_physics_step(before, dt);
        assert(updates@.subrange(0, updates@.len() as int) =~= updates@);
        assert forall|id: ID| has_update(updates@, id) implies before.bodies().is_mover(id) by {
            let k = choose|k: int| 0 <= k < updates@.len() && updates@[k].0 == id;
            assert(before.bodies().is_mover(updates@[k].0));
        }
        assert(w@.positions =~= after.positions);
        assert(w@.velocities =~= after.velocities);
        assert(w@.groundables =~= after.groundables);
    }
}

/// Whether one of the listed entities runs into the collider `other` during
/// a tick.
spec fn any_contact(ids: Seq<ID>, b: Bodies, dt: Fixed, other: ID) -> bool {
    exists|id: ID| ids.contains(id) && spec_entity_contacts(b, id, dt).contains(other)
}

/// Works out the update of every moving entity against the world as it
/// stands, and records the colliders that any of them runs into.
fn stage_all(w: &World, dt: Fixed, debug_collisions: &mut HashSet<ID>) -> (updates: Vec<
    (ID, UpdateContainer),
>)
    ensures
        forall|k: int|
            0 <= k < updates@.len() ==> w@.bodies().is_mover(#[trigger] updates@[k].0) && updates@[k].1
                == spec_staged(w@.bodies(), updates@[k].0, dt),
        forall|id: ID| w@.bodies().is_mover(id) ==> has_update(updates@, id),
        final(debug_collisions)@ == old(debug_collisions)@.union(spec_step_contacts(w@.bodies(), dt)),
{
    let mut updates: Vec<(ID, UpdateContainer)> = Vec::new();
    let ids = set_members(&w.entities);
    let mut i: usize = 0;
    while i < ids.len()
        invariant
            0 <= i <= ids.len(),
            ids@.no_duplicates(),
            ids@.to_set() == w@.entities,
            forall|k: int|
                0 <= k < updates@.len() ==> w@.bodies().is_mover(#[trigger] updates@[k].0) && updates@[k].1
                    == spec_staged(w@.bodies(), updates@[k].0, dt),
            forall|id: ID|
                ids@.subrange(0, i as int).contains(id) && w@.bodies().is_mover(id) ==> has_update(
                    updates@,
                    id,
                ),
            forall|other: ID|
                debug_collisions@.contains(other) <==> (old(debug_collisions)@.contains(other)
                    || any_contact(ids@.subrange(0, i as int), w@.bodies(), dt, other)),
        decreases ids.len() - i,
    {
        let id = ids[i];
        let ghost done = ids@.subrange(0, i as int);
        let ghost more = ids@.subrange(0, i as int + 1);
        let ghost noted = debug_collisions@;
        let ghost staged_before = updates@;
        proof {
            lemma_prefix_step(ids@, i as int);
            assert(ids@.to_set().contains(id));
        }
        let staged = stage_entity(w, id, dt, debug_collisions);
        if let Some(update) = staged {
            updates.push((id, update));
        }
        proof {
            lemma_staged_grows(staged_before, updates@, id, staged);
            assert forall|x: ID| more.contains(x) && w@.bodies().is_mover(x) implies has_update(
                updates@,
                x,
            ) by {
                if x != id {
                    assert(done.contains(x));
                }
            }
            lemma_contacts_grow(
                old(debug_collisions)@,
                noted,
                debug_collisions@,
                ids@,
                i as int,
                w@.bodies(),
                dt,
            );
        }
        i += 1;
    }
    proof {
        lemma_prefix_whole(ids@);
        let want = old(debug_collisions)@.union(spec_step_contacts(w@.bodies(), dt));
        assert forall|other: ID| debug_collisions@.contains(other) <==> want.contains(other) by {
            if spec_step_contacts(w@.bodies(), dt).contains(other) {
                let m = choose|m: ID|
                    w@.entities.contains(m) && spec_entity_contacts(w@.bodies(), m, dt).contains(other);
                assert(ids@.to_set().contains(m));
                assert(ids@.contains(m));
            }
            if any_contact(ids@, w@.bodies(), dt, other) {
                let m = choose|m: ID|
                    ids@.contains(m) && spec_entity_contacts(w@.bodies(), m, dt).contains(other);
                assert(ids@.to_set().contains(m));
            }
        }
        assert(debug_collisions@ =~= want);
        assert forall|id: ID| w@.bodies().is_mover(id) implies has_update(updates@, id) by {
            assert(ids@.to_set().contains(id));
            assert(ids@.contains(id));
        }
    }
    updates
}

proof fn lemma_staged_grows(
    before: Seq<(ID, UpdateContainer)>,
    after: Seq<(ID, UpdateContainer)>,
    id: ID,
    staged: Option<UpdateContainer>,
)
    requires
        match staged {
            Some(u) => after == before.push((id, u)),
            None => after == before,
        },
    ensures
        forall|x: ID| has_update(before, x) ==> has_update(after, x),
        staged is Some ==> has_update(after, id),
{
    assert forall|x: ID| has_update(before, x) implies has_update(after, x) by {
        let k = choose|k: int| 0 <= k < before.len() && before[k].0 == x;
        assert(after[k].0 == x);
    }
    if staged is Some {
        assert(after[before.len() as int].0 == id);
    }
}

proof fn lemma_contacts_grow(
    start: Set<ID>,
    noted: Set<ID>,
    now: Set<ID>,
    ids: Seq<ID>,
    i: int,
    b: Bodies,
    dt: Fixed,
)
    requires
        0 <= i < ids.len(),
        forall|other: ID|
            noted.contains(other) <==> (start.contains(other) || any_contact(
                ids.subrange(0, i),
                b,
                dt,
                other,
            )),
        now == noted.union(spec_entity_contacts(b, ids[i], dt)),
    ensures
        forall|other: ID|
            now.contains(other) <==> (start.contains(other) || any_contact(
                ids.subrange(0, i + 1),
                b,
                dt,
                other,
            )),
{
    let done = ids.subrange(0, i);
    let more = ids.subrange(0, i + 1);
    lemma_prefix_step(ids, i);
    assert forall|other: ID|
        now.contains(other) <==> (start.contains(other) || any_contact(more, b, dt, other)) by {
        assert(noted.contains(other) <==> (start.contains(other) || any_contact(
            done,
            b,
            dt,
            other,
        )));
        if any_contact(done, b, dt, other) {
            let m = choose|m: ID| done.contains(m) && spec_entity_contacts(b, m, dt).contains(other);
            assert(more.contains(m));
        }
        if spec_entity_contacts(b, ids[i], dt).contains(other) {
            assert(more.contains(ids[i]));
        }
        if any_contact(more, b, dt, other) {
            let m = choose|m: ID| more.contains(m) && spec_entity_contacts(b, m, dt).contains(other);
            assert(done.contains(m) || m == ids[i]);
        }
    }
}

/// Runs one tick of physics of `dt` seconds on the world, and adds the
/// colliders that anything ran into to `debug_collisions`.
pub fn physics_step(w: &mut World, dt: Fixed, debug_collisions: &mut HashSet<ID>)
    ensures
        final(w)@ == spec_physics_step(old(w)@, dt),
        final(debug_collisions)@ == old(debug_collisions)@.union(
            spec_step_contacts(old(w)@.bodies(), dt),
        ),
{
    let updates = stage_all(w, dt, debug_collisions);
    commit(w, &updates, dt);
}

/// The world after one tick: physics first, then the scheduled blocks.
pub open spec fn spec_tick(w: WorldView) -> WorldView {
    spec_mover_blocks(spec_physics_step(w, Fixed { raw: TICK_RAW }), Fixed { raw: TICK_RAW })
}

/// The world after `ticks` ticks.
pub open spec fn spec_run(w: WorldView, ticks: nat) -> WorldView
    decreases ticks,
{
    if ticks == 0 {
        w
    } else {
        spec_tick(spec_run(w, (ticks - 1) as nat))
    }
}

/// The colliders that anything runs into during the first `ticks` ticks.
pub open spec fn spec_run_contacts(w: WorldView, ticks: nat) -> Set<ID>
    decreases ticks,
{
    if ticks == 0 {
        Set::empty()
    } else {
        spec_run_contacts(w, (ticks - 1) as nat).union(
            spec_step_contacts(
                spec_run(w, (ticks - 1) as nat).bodies(),
                Fixed { raw: TICK_RAW },
            ),
        )
    }
}

/// The world after the current camera, if there is one, took over the
/// horizontal position of the current player, if that has one.
pub open spec fn spec_follow(w: WorldView) -> WorldView {
    if w.cameras.contains_key(w.current_camera) && w.positions.contains_key(w.current_player) {
        let camera = w.cameras[w.current_camera];
        let pos = Vec2 { x: w.positions[w.current_player].x, y: camera.pos.y };
        WorldView { cameras: w.cameras.insert(w.current_camera, Camera { pos, ..camera }), ..w }
    } else {
        w
    }
}

/// How many whole ticks fit into `nanos` nanoseconds.
pub open spec fn spec_ticks_in(nanos: nat) -> nat {
    nanos / (TICK_NANOS as nat)
}

/// What is left of `nanos` nanoseconds after the whole ticks in it.
pub open spec fn spec_leftover(nanos: nat) -> nat {
    nanos % (TICK_NANOS as nat)
}

/// The world after the simulation was given `nanos` nanoseconds: every
/// whole tick in that time has run, the camera has followed the player once,
/// and the world remembers the colliders that were run into.
pub open spec fn spec_simulation(w: WorldView, nanos: nat) -> WorldView {
    let ticks = spec_ticks_in(nanos);
    WorldView { statics_collisions: spec_run_contacts(w, ticks), ..spec_follow(spec_run(w, ticks)) }
}

/// Lets the current camera follow the current player.
fn follow_player(w: &mut World)
    ensures
        final(w)@ == spec_follow(old(w)@),
{
    let camera = match w.cameras.get(&w.current_camera) {
        Some(c) => Some(*c),
        None => None,
    };
    let player_pos = match w.positions.get(&w.current_player) {
        Some(p) => Some(*p),
        None => None,
    };
    if let (Some(mut camera), Some(player_pos)) = (camera, player_pos) {
        camera_follow(&mut camera.pos, &player_pos);
        w.cameras.insert(w.current_camera, camera);
    }
}

/// Runs every whole tick that fits into `total` nanoseconds and returns
/// what is left of the time.
fn simulate(w: &mut World, total: u128) -> (leftover: u64)
    ensures
        leftover == spec_leftover(total as nat),
        final(w)@ == spec_simulation(old(w)@, total as nat),
{
    let sim_dt: u128 = TICK_NANOS as u128;
    let sim_dt_secs = Fixed { raw: TICK_RAW };
    let mut dt_accum: u128 = total;
    let mut statics_collisions: HashSet<ID> = HashSet::new();
    let ghost mut ticks: nat = 0;
    while dt_accum >= sim_dt
        invariant
            sim_dt == TICK_NANOS,
            sim_dt_secs.raw == TICK_RAW,
            dt_accum + ticks * TICK_NANOS == total,
            w@ == spec_run(old(w)@, ticks),
            statics_collisions@ == spec_run_contacts(old(w)@, ticks),
        decreases dt_accum,
    {
        physics_step(w, sim_dt_secs, &mut statics_collisions);
        mover_blocks(w, sim_dt_secs);
        dt_accum -= sim_dt;
        proof {
            ticks = ticks + 1;
        }
    }
    follow_player(w);
    w.statics_collisions = statics_collisions;
    dt_accum as u64
}

/// Gives the simulation `dt` nanoseconds: runs one tick for every 10 ms in
/// them, lets the camera follow the player, and returns the nanoseconds
/// that were not used, for the caller to add to the next call's time.
pub fn simulation_systems(w: &mut World, dt: u64) -> (leftover: u64)
    ensures
        leftover == spec_leftover(dt as nat),
        final(w)@ == spec_simulation(old(w)@, dt as nat),
{
    simulate(w, dt as u128)
}

/// The fixed-timestep scheduler: it keeps the time that no tick has used
/// yet, and nobody else can change it.
pub struct Scheduler {
    accumulated: u64,
}

impl Scheduler {
    #[verifier::type_invariant]
    spec fn fits(self) -> bool {
        self.accumulated < TICK_NANOS
    }

    /// The nanoseconds that no tick has used yet.
    pub closed spec fn accumulated(self) -> nat {
        self.accumulated as nat
    }

    /// A scheduler with no time on its account.
    pub fn new() -> (s: Scheduler)
        ensures
            s.accumulated() == 0,
    {
        Scheduler { accumulated: 0 }
    }

    /// The nanoseconds that no tick has used yet: always less than a tick.
    pub fn leftover(&self) -> (nanos: u64)
        ensures
            nanos == self.accumulated(),
            nanos < TICK_NANOS,
    {
        proof {
            use_type_invariant(self);
        }
        self.accumulated
    }

    /// Adds `elapsed` nanoseconds to the account, runs the simulation on
    /// all of it and keeps what is left. With no new time nothing runs and
    /// the account stays as it was.
    pub fn step(&mut self, w: &mut World, elapsed: u64) -> (leftover: u64)
        ensures
            leftover == spec_leftover(old(self).accumulated() + elapsed as nat),
            final(self).accumulated() == leftover,
            final(w)@ == spec_simulation(old(w)@, old(self).accumulated() + elapsed as nat),
            elapsed == 0 ==> {
                &&& leftover == old(self).accumulated()
                &&& spec_ticks_in(old(self).accumulated() + elapsed as nat) == 0
                &&& final(w)@ == (WorldView {
                    statics_collisions: Set::empty(),
                    ..spec_follow(old(w)@)
                })
            },
    {
        proof {
            use_type_invariant(&*self);
        }
        let total: u128 = self.accumulated as u128 + elapsed as u128;
        let leftover = simulate(w, total);
        self.accumulated = leftover;
        leftover
    }
}

} // verus!
