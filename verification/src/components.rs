//! The world: every component kind in a sparse container of its own, keyed
//! by entity id. An entity has a component when the container of that kind
//! holds a value under its id.

use crate::camera::Camera;
use crate::common::{Vec2, AABB};
use crate::fixed::Fixed;
use crate::platforms::MoverBlock;
use std::collections::{HashMap, HashSet};
use vstd::prelude::*;

verus! {

broadcast use vstd::std_specs::hash::group_hash_axioms;

/// Something the player asked for.
#[derive(Clone, Copy, PartialEq, Eq, Debug, Structural)]
pub enum PlayerAction {
    MoveLeft,
    MoveRight,
    Jump,
}

/// Something asked of the camera.
#[derive(Clone, Copy, PartialEq, Eq, Debug, Structural)]
pub enum CameraAction {
    MoveLeft,
    MoveRight,
    MoveUp,
    MoveDown,
    ZoomOut,
    ZoomIn,
}

pub type Position = Vec2;

/// A box relative to the position of the entity that has it.
pub type Collision = AABB;

pub type Velocity = Vec2;

pub type PlayerActions = Vec<PlayerAction>;

pub type CameraActions = Vec<CameraAction>;

pub type ID = usize;

pub struct World {
    pub alive: bool,
    pub simulate: bool,
    pub positions: HashMap<ID, Position>,
    pub collisions: HashMap<ID, Collision>,
    pub velocities: HashMap<ID, Velocity>,
    /// Whether the entity rested on a surface at the end of the last tick.
    pub groundables: HashMap<ID, bool>,
    pub cameras: HashMap<ID, Camera>,
    pub mover_blocks: HashMap<ID, MoverBlock>,
    pub entities: HashSet<ID>,
    /// The id that the next new entity gets.
    pub next: ID,
    pub current_camera: ID,
    pub current_player: ID,
    pub current_tilemap: ID,
    /// Pending actions; an entry marks an entity that can be given actions.
    pub player_actions: HashMap<ID, PlayerActions>,
    pub camera_actions: HashMap<ID, CameraActions>,
    /// The entities that something collided with during the last run of the
    /// simulation.
    pub statics_collisions: HashSet<ID>,
}

/// The world as plain mathematical maps and sets.
pub struct WorldView {
    pub alive: bool,
    pub simulate: bool,
    pub positions: Map<ID, Position>,
    pub collisions: Map<ID, Collision>,
    pub velocities: Map<ID, Velocity>,
    pub groundables: Map<ID, bool>,
    pub cameras: Map<ID, Camera>,
    pub mover_blocks: Map<ID, MoverBlock>,
    pub entities: Set<ID>,
    pub next: ID,
    pub current_camera: ID,
    pub current_player: ID,
    pub current_tilemap: ID,
    pub player_actions: Map<ID, Seq<PlayerAction>>,
    pub camera_actions: Map<ID, Seq<CameraAction>>,
    pub statics_collisions: Set<ID>,
}

impl View for World {
    type V = WorldView;

    open spec fn view(&self) -> WorldView {
        WorldView {
            alive: self.alive,
            simulate: self.simulate,
            positions: self.positions@,
            collisions: self.collisions@,
            velocities: self.velocities@,
            groundables: self.groundables@,
            cameras: self.cameras@,
            mover_blocks: self.mover_blocks@,
            entities: self.entities@,
            next: self.next,
            current_camera: self.current_camera,
            current_player: self.current_player,
            current_tilemap: self.current_tilemap,
            player_actions: self.player_actions@.map_values(|v: PlayerActions| v@),
            camera_actions: self.camera_actions@.map_values(|v: CameraActions| v@),
            statics_collisions: self.statics_collisions@,
        }
    }
}

impl WorldView {
    /// Ids are handed out in rising order, so in a well-formed world every
    /// entity's id lies below the next one to be handed out.
    pub open spec fn wf(self) -> bool {
        forall|id: ID| #[trigger] self.entities.contains(id) ==> id < self.next
    }

    /// The world with no entity in it.
    pub open spec fn empty() -> WorldView {
        WorldView {
            alive: true,
            simulate: true,
            positions: Map::empty(),
            collisions: Map::empty(),
            velocities: Map::empty(),
            groundables: Map::empty(),
            cameras: Map::empty(),
            mover_blocks: Map::empty(),
            entities: Set::empty(),
            next: 1,
            current_camera: 0,
            current_player: 0,
            current_tilemap: 0,
            player_actions: Map::empty(),
            camera_actions: Map::empty(),
            statics_collisions: Set::empty(),
        }
    }

    /// The world with one more entity, under the id `self.next`.
    pub open spec fn with_entity(self) -> WorldView {
        WorldView {
            entities: self.entities.insert(self.next),
            next: (self.next + 1) as ID,
            ..self
        }
    }

    /// The world with a new player in it: at the starting point, at rest,
    /// in the air, with a player's box and nothing pending.
    pub open spec fn with_player(self) -> WorldView {
        let id = self.next;
        WorldView {
            positions: self.positions.insert(
                id,
                Vec2 { x: Fixed { raw: PLAYER_START_X }, y: Fixed { raw: PLAYER_START_Y } },
            ),
            collisions: self.collisions.insert(id, spec_player_box()),
            velocities: self.velocities.insert(id, Vec2 { x: Fixed { raw: 0 }, y: Fixed { raw: 0 } }),
            groundables: self.groundables.insert(id, false),
            player_actions: self.player_actions.insert(id, Seq::empty()),
            ..self.with_entity()
        }
    }

    /// The world with a new camera entity in it, nothing pending.
    pub open spec fn with_camera(self, camera: Camera) -> WorldView {
        let id = self.next;
        WorldView {
            cameras: self.cameras.insert(id, camera),
            camera_actions: self.camera_actions.insert(id, Seq::empty()),
            ..self.with_entity()
        }
    }

    /// The world with a new entity at the origin, to carry the background.
    pub open spec fn with_background(self) -> WorldView {
        WorldView {
            positions: self.positions.insert(
                self.next,
                Vec2 { x: Fixed { raw: 0 }, y: Fixed { raw: 0 } },
            ),
            ..self.with_entity()
        }
    }

    /// The world with a new block in it that moves on the schedule `block`,
    /// standing at the schedule's start.
    pub open spec fn with_mover_block(self, block: MoverBlock) -> WorldView {
        let id = self.next;
        WorldView {
            mover_blocks: self.mover_blocks.insert(id, block),
            positions: self.positions.insert(id, block.start),
            collisions: self.collisions.insert(id, spec_block_box()),
            ..self.with_entity()
        }
    }

    /// The world with a new obstacle in it that does not move: a box of the
    /// full size `size` around `center`.
    pub open spec fn with_static_obstacle(self, center: Vec2, size: Vec2) -> WorldView {
        let id = self.next;
        WorldView {
            positions: self.positions.insert(id, center),
            collisions: self.collisions.insert(id, spec_obstacle_box(size)),
            ..self.with_entity()
        }
    }

    /// The part of the world that motion and collisions read.
    pub open spec fn bodies(self) -> Bodies {
        Bodies {
            entities: self.entities,
            positions: self.positions,
            velocities: self.velocities,
            collisions: self.collisions,
        }
    }
}

/// What motion and collisions read of a world: who exists, where, how fast
/// and with what box.
pub struct Bodies {
    pub entities: Set<ID>,
    pub positions: Map<ID, Position>,
    pub velocities: Map<ID, Velocity>,
    pub collisions: Map<ID, Collision>,
}

impl Bodies {
    /// An entity takes part in motion when it has a position and a velocity.
    pub open spec fn is_mover(self, id: ID) -> bool {
        self.entities.contains(id) && self.positions.contains_key(id)
            && self.velocities.contains_key(id)
    }

    /// An entity can be collided with when it has a position and a box.
    pub open spec fn is_collider(self, id: ID) -> bool {
        self.entities.contains(id) && self.positions.contains_key(id)
            && self.collisions.contains_key(id)
    }
}

/// Where a new player stands, in raw steps: at (8, 4).
pub const PLAYER_START_X: i64 = 8_000_000;

pub const PLAYER_START_Y: i64 = 4_000_000;

/// Half extents of a player's box, in raw steps: 1 by 2.
pub const PLAYER_HALF_WIDTH: i64 = 1_000_000;

pub const PLAYER_HALF_HEIGHT: i64 = 2_000_000;

/// Half extents of a moving block's box, in raw steps: 4 by 1.
pub const BLOCK_HALF_WIDTH: i64 = 4_000_000;

pub const BLOCK_HALF_HEIGHT: i64 = 1_000_000;

/// The box of a player, around its position.
pub open spec fn spec_player_box() -> Collision {
    AABB {
        center: Vec2 { x: Fixed { raw: 0 }, y: Fixed { raw: 0 } },
        half_size: Vec2 {
            x: Fixed { raw: PLAYER_HALF_WIDTH },
            y: Fixed { raw: PLAYER_HALF_HEIGHT },
        },
    }
}

/// The box of a moving block, around its position.
pub open spec fn spec_block_box() -> Collision {
    AABB {
        center: Vec2 { x: Fixed { raw: 0 }, y: Fixed { raw: 0 } },
        half_size: Vec2 { x: Fixed { raw: BLOCK_HALF_WIDTH }, y: Fixed { raw: BLOCK_HALF_HEIGHT } },
    }
}

/// The box of an obstacle of the given full size, around its position.
pub open spec fn spec_obstacle_box(size: Vec2) -> Collision {
    AABB {
        center: Vec2 { x: Fixed { raw: 0 }, y: Fixed { raw: 0 } },
        half_size: size.spec_shrink(Fixed::of(2 * crate::fixed::SCALE)),
    }
}

impl World {
    /// A live world with no entity in it. The first entity gets the id 1.
    pub fn new() -> (w: World)
        ensures
            w@ == WorldView::empty(),
            w@.wf(),
    {
        let w = World {
            alive: true,
            simulate: true,
            positions: HashMap::new(),
            collisions: HashMap::new(),
            velocities: HashMap::new(),
            groundables: HashMap::new(),
            cameras: HashMap::new(),
            mover_blocks: HashMap::new(),
            player_actions: HashMap::new(),
            camera_actions: HashMap::new(),
            entities: HashSet::new(),
            next: 1,
            current_camera: 0,
            current_player: 0,
            current_tilemap: 0,
            statics_collisions: HashSet::new(),
        };
        proof {
            assert(w@.player_actions =~= Map::empty());
            assert(w@.camera_actions =~= Map::empty());
        }
        w
    }

    /// An empty world with a camera, which is made the current one.
    pub fn new_with_camera(fovy: Fixed, screen_size: Vec2) -> (w: World)
        ensures
            w@ == (WorldView {
                current_camera: 1,
                ..WorldView::empty().with_camera(
                    Camera {
                        fovy,
                        ratio: screen_size.x.spec_div(screen_size.y),
                        screen_height: screen_size.y,
                        pos: Vec2 { x: Fixed { raw: 0 }, y: Fixed { raw: 0 } },
                    },
                )
            }),
            w@.wf(),
    {
        let mut world = World::new();
        let id = world.new_camera(fovy, Vec2 { x: Fixed::zero(), y: Fixed::zero() }, screen_size);
        world.current_camera = id;
        world
    }

    /// Whether the world can still hand out an id.
    pub fn has_room(&self) -> (ok: bool)
        ensures
            ok == (self.next < usize::MAX),
    {
        self.next < usize::MAX
    }

    /// Makes a new entity without any component and returns its id.
    pub fn new_entity(&mut self) -> (id: ID)
        requires
            old(self).next < usize::MAX,
        ensures
            id == old(self).next,
            final(self)@ == old(self)@.with_entity(),
            old(self)@.wf() ==> final(self)@.wf() && !old(self)@.entities.contains(id),
    {
        let id = self.next;
        self.entities.insert(id);
        self.next += 1;
        proof {
            if old(self)@.wf() {
                assert(old(self)@.entities.contains(id) ==> id < old(self).next);
                assert forall|e: ID| #[trigger] self@.entities.contains(e) implies e < self.next by {
                    if e != id {
                        assert(old(self)@.entities.contains(e));
                    }
                }
            }
        }
        id
    }

    /// Takes every component of `id` out of the world, and `id` out of the
    /// entities. A schedule that `id` may have stays.
    pub fn delete_entity(&mut self, id: ID)
        ensures
            final(self)@ == (WorldView {
                positions: old(self)@.positions.remove(id),
                collisions: old(self)@.collisions.remove(id),
                velocities: old(self)@.velocities.remove(id),
                groundables: old(self)@.groundables.remove(id),
                cameras: old(self)@.cameras.remove(id),
                player_actions: old(self)@.player_actions.remove(id),
                camera_actions: old(self)@.camera_actions.remove(id),
                entities: old(self)@.entities.remove(id),
                ..old(self)@
            }),
            old(self)@.wf() ==> final(self)@.wf(),
    {
        self.positions.remove(&id);
        self.collisions.remove(&id);
        self.velocities.remove(&id);
        self.groundables.remove(&id);
        self.cameras.remove(&id);
        self.player_actions.remove(&id);
        self.camera_actions.remove(&id);
        self.entities.remove(&id);
        proof {
            assert(self@.player_actions =~= old(self)@.player_actions.remove(id));
            assert(self@.camera_actions =~= old(self)@.camera_actions.remove(id));
        }
    }

    /// Makes a player: an entity at the starting point, at rest, in the air,
    /// with a player's box and an empty list of pending actions.
    pub fn new_player(&mut self) -> (id: ID)
        requires
            old(self).next < usize::MAX,
        ensures
            id == old(self).next,
            final(self)@ == old(self)@.with_player(),
            old(self)@.wf() ==> final(self)@.wf(),
    {
        let id = self.new_entity();
        self.positions.insert(id, Vec2::from_raw(PLAYER_START_X, PLAYER_START_Y));
        self.collisions.insert(
            id,
            AABB::new(Vec2::from_raw(0, 0), Vec2::from_raw(PLAYER_HALF_WIDTH, PLAYER_HALF_HEIGHT)),
        );
        self.velocities.insert(id, Vec2::from_raw(0, 0));
        self.groundables.insert(id, false);
        self.player_actions.insert(id, Vec::new());
        proof {
            assert(self@.player_actions =~= old(self)@.player_actions.insert(id, Seq::empty()));
        }
        id
    }

    /// Makes a camera entity with an empty list of pending actions.
    pub fn new_camera(&mut self, fovy: Fixed, pos: Vec2, screen_size: Vec2) -> (id: ID)
        requires
            old(self).next < usize::MAX,
        ensures
            id == old(self).next,
            final(self)@ == old(self)@.with_camera(
                Camera {
                    fovy,
                    ratio: screen_size.x.spec_div(screen_size.y),
                    screen_height: screen_size.y,
                    pos,
                },
            ),
            old(self)@.wf() ==> final(self)@.wf(),
    {
        let id = self.new_entity();
        self.cameras.insert(id, Camera::new(fovy, pos, screen_size));
        self.camera_actions.insert(id, Vec::new());
        proof {
            assert(self@.camera_actions =~= old(self)@.camera_actions.insert(id, Seq::empty()));
        }
        id
    }

    /// Makes the entity that carries the background picture, at the origin,
    /// and returns its id with the box that the picture fills.
    pub fn new_background(&mut self, center: Vec2, size: Vec2) -> (made: (ID, AABB))
        requires
            old(self).next < usize::MAX,
        ensures
            made.0 == old(self).next,
            made.1 == (AABB { center, half_size: size.spec_shrink(Fixed::of(2 * crate::fixed::SCALE)) }),
            final(self)@ == old(self)@.with_background(),
            old(self)@.wf() ==> final(self)@.wf(),
    {
        let id = self.new_entity();
        self.positions.insert(id, Vec2::from_raw(0, 0));
        (id, AABB::new(center, size.shrink(Fixed::from_units(2))))
    }

    /// Makes a block that travels from `start` to `end` in `travel_time`
    /// seconds, over and over. It starts at `start`.
    pub fn new_mover_block(&mut self, start: Vec2, end: Vec2, travel_time: Fixed) -> (id: ID)
        requires
            old(self).next < usize::MAX,
        ensures
            id == old(self).next,
            final(self)@ == old(self)@.with_mover_block(MoverBlock { start, end, travel_time }),
            old(self)@.wf() ==> final(self)@.wf(),
    {
        let id = self.new_entity();
        self.mover_blocks.insert(id, MoverBlock { start, end, travel_time });
        self.positions.insert(id, start);
        self.collisions.insert(
            id,
            AABB::new(Vec2::from_raw(0, 0), Vec2::from_raw(BLOCK_HALF_WIDTH, BLOCK_HALF_HEIGHT)),
        );
        id
    }

    /// Makes an obstacle that does not move: a box of the full size `size`
    /// around `center`.
    pub fn new_static_obstacle(&mut self, center: Vec2, size: Vec2) -> (id: ID)
        requires
            old(self).next < usize::MAX,
        ensures
            id == old(self).next,
            final(self)@ == old(self)@.with_static_obstacle(center, size),
            old(self)@.wf() ==> final(self)@.wf(),
    {
        let id = self.new_entity();
        self.positions.insert(id, center);
        self.collisions.insert(
            id,
            AABB::new(Vec2::from_raw(0, 0), size.shrink(Fixed::from_units(2))),
        );
        id
    }

    /// The position and velocity of `id`, if it has both.
    pub fn get_moving_entity(&self, id: ID) -> (found: Option<(&Position, &Velocity)>)
        ensures
            match found {
                Some((p, v)) => self.positions@.contains_key(id) && self.velocities@.contains_key(
                    id,
                ) && *p == self.positions@[id] && *v == self.velocities@[id],
                None => !(self.positions@.contains_key(id) && self.velocities@.contains_key(id)),
            },
    {
        match (self.positions.get(&id), self.velocities.get(&id)) {
            (Some(p), Some(v)) => Some((p, v)),
            _ => None,
        }
    }

    /// The position and box of `id`, if it has both.
    pub fn get_collider_entity(&self, id: ID) -> (found: Option<(&Position, &Collision)>)
        ensures
            match found {
                Some((p, c)) => self.positions@.contains_key(id) && self.collisions@.contains_key(
                    id,
                ) && *p == self.positions@[id] && *c == self.collisions@[id],
                None => !(self.positions@.contains_key(id) && self.collisions@.contains_key(id)),
            },
    {
        match (self.positions.get(&id), self.collisions.get(&id)) {
            (Some(p), Some(c)) => Some((p, c)),
            _ => None,
        }
    }
}

} // verus!
