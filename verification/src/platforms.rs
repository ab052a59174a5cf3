//! Platforms on a kinematic schedule: a block travels from `start` to `end`
//! in `travel_time` seconds and then starts over from `start`.

use crate::common::Vec2;
use crate::components::{Position, World, WorldView};
use crate::fixed::{Fixed, SCALE};
use crate::registry::{lemma_prefix_step, lemma_prefix_whole, map_keys};
use std::collections::HashMap;
use vstd::prelude::*;

verus! {

broadcast use vstd::std_specs::hash::group_hash_axioms;

/// The schedule of a moving block.
#[derive(Clone, Copy, PartialEq, Eq, Debug, Structural)]
pub struct MoverBlock {
    pub start: Vec2,
    pub end: Vec2,
    /// Seconds from `start` to `end`.
    pub travel_time: Fixed,
}

impl MoverBlock {
    /// A schedule has a segment to travel when its ends differ, and takes time
    /// to travel it when `travel_time` is above zero.
    pub open spec fn spec_is_valid(self) -> bool {
        self.start != self.end && self.travel_time.raw > 0
    }

    /// Where a block at `pos` stands `dt` seconds later.
    ///
    /// The block's progress is read off its position: the distance from
    /// `start` over the length of the segment. It grows by `dt` over
    /// `travel_time`; once it is past one, one is taken off, so the block
    /// starts over from `start` rather than turning back.
    pub open spec fn spec_advance(self, pos: Vec2, dt: Fixed) -> Vec2 {
        let step = dt.spec_div(self.travel_time);
        let along = pos.spec_sub(self.start).spec_norm();
        let span = self.end.spec_sub(self.start);
        let phase = along.spec_div(span.spec_norm());
        let next = phase.spec_add(step);
        let wrapped = if next.raw > SCALE {
            next.spec_sub(Fixed { raw: SCALE })
        } else {
            next
        };
        span.spec_scale(wrapped).spec_add(self.start)
    }

    #[verifier::when_used_as_spec(spec_is_valid)]
    pub fn is_valid(self) -> (ok: bool)
        ensures
            ok == self.spec_is_valid(),
    {
        (self.start.x.raw != self.end.x.raw || self.start.y.raw != self.end.y.raw)
            && self.travel_time.raw > 0
    }
}

/// Where a block on the schedule `mover`, now at `position`, stands after
/// `dt` seconds.
pub fn mover_advance(position: Position, mover: &MoverBlock, dt: Fixed) -> (next: Position)
    ensures
        next == mover.spec_advance(position, dt),
{
    let step = dt.div(mover.travel_time);
    let along = position.sub(mover.start).norm();
    let span = mover.end.sub(mover.start);
    let phase = along.div(span.norm());
    let mut next = phase.add(step);
    if next.raw > SCALE {
        next = next.sub(Fixed::one());
    }
    span.scale(next).add(mover.start)
}

/// Moves the block at `pos` along its schedule by `dt` seconds.
pub fn mover_block(pos: &mut Position, mover: &MoverBlock, dt: Fixed)
    ensures
        *final(pos) == mover.spec_advance(*old(pos), dt),
{
    *pos = mover_advance(*pos, mover, dt);
}

/// A schedule whose ends coincide holds its block at that point.
pub proof fn lemma_degenerate_mover_rests(mover: MoverBlock, pos: Vec2, dt: Fixed)
    requires
        mover.start == mover.end,
    ensures
        mover.spec_advance(pos, dt) == mover.start,
{
    let span = mover.end.spec_sub(mover.start);
    assert(span.x.raw == 0 && span.y.raw == 0);
    assert forall|k: Fixed| span.spec_scale(k) == span by {
        assert(0 * k.raw == 0);
        assert(0int / (SCALE as int) == 0);
    }
}

/// The positions after every scheduled block has moved by `dt` seconds:
/// each entity that has both a schedule and a position moves along its
/// schedule, every other position stays.
pub open spec fn spec_mover_blocks(w: WorldView, dt: Fixed) -> WorldView {
    WorldView {
        positions: Map::new(
            |id: usize| w.positions.contains_key(id),
            |id: usize|
                if w.mover_blocks.contains_key(id) {
                    w.mover_blocks[id].spec_advance(w.positions[id], dt)
                } else {
                    w.positions[id]
                },
        ),
        ..w
    }
}

/// Moves every scheduled block of the world by `dt` seconds.
pub fn mover_blocks(world: &mut World, dt: Fixed)
    ensures
        final(world)@ == spec_mover_blocks(old(world)@, dt),
{
    let ids = map_keys(&world.mover_blocks);
    let ghost before = world@;
    let mut i: usize = 0;
    while i < ids.len()
        invariant
            0 <= i <= ids.len(),
            ids@.no_duplicates(),
            ids@.to_set() == before.mover_blocks.dom(),
            world@ == (WorldView { positions: world@.positions, ..before }),
            world@.positions.dom() == before.positions.dom(),
            forall|id: usize| #[trigger]
                before.positions.contains_key(id) ==> world@.positions[id] == if ids@.subrange(
                    0,
                    i as int,
                ).contains(id) {
                    before.mover_blocks[id].spec_advance(before.positions[id], dt)
                } else {
                    before.positions[id]
                },
        decreases ids.len() - i,
    {
        let id = ids[i];
        proof {
            lemma_prefix_step(ids@, i as int);
            assert(ids@.to_set().contains(id));
        }
        let block = match world.mover_blocks.get(&id) {
            Some(b) => Some(*b),
            None => None,
        };
        let found = match world.positions.get(&id) {
            Some(p) => Some(*p),
            None => None,
        };
        if let (Some(block), Some(p)) = (block, found) {
            let moved = mover_advance(p, &block, dt);
            world.positions.insert(id, moved);
            assert(world@.positions.dom() =~= before.positions.dom());
        }
        i += 1;
    }
    proof {
        lemma_prefix_whole(ids@);
        assert(world@.positions =~= spec_mover_blocks(before, dt).positions);
    }
}

} // verus!
