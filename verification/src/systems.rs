//! From input to actions, from actions to velocities and camera moves, and
//! the frame's run of all of it followed by the simulation.

use crate::camera::Camera;
use crate::common::Vec2;
use crate::components::{CameraAction, PlayerAction, Velocity, World, WorldView, ID};
use crate::fixed::Fixed;
use crate::input::{
    InputState, Keycode, KEY_A, KEY_D, KEY_E, KEY_LEFT, KEY_Q, KEY_RIGHT, KEY_S, KEY_SPACE, KEY_W,
};
use crate::physics::{simulation_systems, spec_leftover, spec_simulation};
use crate::platforms::MoverBlock;
use crate::registry::{copy_list, lemma_prefix_step, lemma_prefix_whole, set_members};
use vstd::prelude::*;

verus! {

broadcast use vstd::std_specs::hash::group_hash_axioms;

/// Walking speed, in raw steps: 24 world units per second.
pub const WALK_SPEED_RAW: i64 = 24_000_000;

/// Upward speed that a jump adds, in raw steps: 100 world units per second.
pub const JUMP_SPEED_RAW: i64 = 100_000_000;

/// How far one action moves the camera, in raw steps: 2 world units.
pub const PAN_STEP_RAW: i64 = 2_000_000;

/// Factor of one step of zooming out: 1.25.
pub const ZOOM_OUT_RAW: i64 = 1_250_000;

/// Factor of one step of zooming in: 0.8.
pub const ZOOM_IN_RAW: i64 = 800_000;

/// The player actions that the input asks for: a jump when space goes down,
/// then moves left and right while the arrow keys are held.
pub open spec fn spec_player_input(input: &InputState) -> Seq<PlayerAction> {
    (if input.spec_key_pressed(KEY_SPACE) {
        seq![PlayerAction::Jump]
    } else {
        seq![]
    }) + (if input.spec_key_down(KEY_LEFT) {
        seq![PlayerAction::MoveLeft]
    } else {
        seq![]
    }) + (if input.spec_key_down(KEY_RIGHT) {
        seq![PlayerAction::MoveRight]
    } else {
        seq![]
    })
}

/// Appends the player actions that the input asks for.
pub fn player_input_controller(input: &InputState, actions: &mut Vec<PlayerAction>)
    ensures
        final(actions)@ == old(actions)@ + spec_player_input(input),
{
    if input.key_pressed(&KEY_SPACE) {
        actions.push(PlayerAction::Jump);
    }
    if input.key_down(&KEY_LEFT) {
        actions.push(PlayerAction::MoveLeft);
    }
    if input.key_down(&KEY_RIGHT) {
        actions.push(PlayerAction::MoveRight);
    }
    assert(actions@ =~= old(actions)@ + spec_player_input(input));
}

/// The one action that a key asks for in the frame in which it goes down.
pub open spec fn spec_on_press(input: &InputState, key: Keycode, action: CameraAction) -> Seq<
    CameraAction,
> {
    if input.spec_key_pressed(key) {
        seq![action]
    } else {
        seq![]
    }
}

/// The camera actions that the input asks for: none while a modifier key is
/// held; else one for each of W, A, S, D, Q, E that goes down, in that order.
pub open spec fn spec_camera_input(input: &InputState) -> Seq<CameraAction> {
    if input.key_mod != 0 {
        seq![]
    } else {
        spec_on_press(input, KEY_W, CameraAction::MoveUp) + spec_on_press(
            input,
            KEY_A,
            CameraAction::MoveLeft,
        ) + spec_on_press(input, KEY_S, CameraAction::MoveDown) + spec_on_press(
            input,
            KEY_D,
            CameraAction::MoveRight,
        ) + spec_on_press(input, KEY_Q, CameraAction::ZoomOut) + spec_on_press(
            input,
            KEY_E,
            CameraAction::ZoomIn,
        )
    }
}

/// Appends `action` if `key` goes down in this frame.
fn push_on_press(
    input: &InputState,
    key: Keycode,
    action: CameraAction,
    actions: &mut Vec<CameraAction>,
)
    ensures
        final(actions)@ == old(actions)@ + spec_on_press(input, key, action),
{
    if input.key_pressed(&key) {
        actions.push(action);
    }
    assert(actions@ =~= old(actions)@ + spec_on_press(input, key, action));
}

/// Appends the camera actions that the input asks for.
pub fn camera_input_controller(input: &InputState, actions: &mut Vec<CameraAction>)
    ensures
        final(actions)@ == old(actions)@ + spec_camera_input(input),
{
    if input.key_mod != 0 {
        assert(actions@ =~= old(actions)@ + spec_camera_input(input));
        return ;
    }
    push_on_press(input, KEY_W, CameraAction::MoveUp, actions);
    push_on_press(input, KEY_A, CameraAction::MoveLeft, actions);
    push_on_press(input, KEY_S, CameraAction::MoveDown, actions);
    push_on_press(input, KEY_D, CameraAction::MoveRight, actions);
    push_on_press(input, KEY_Q, CameraAction::ZoomOut, actions);
    push_on_press(input, KEY_E, CameraAction::ZoomIn, actions);
    assert(actions@ =~= old(actions)@ + spec_camera_input(input));
}

/// The velocity after one player action: a move changes the horizontal
/// speed by the walking speed, a jump adds the jump speed if the player
/// stands on something.
pub open spec fn spec_player_action(v: Velocity, action: PlayerAction, on_ground: bool) -> Velocity {
    match action {
        PlayerAction::MoveLeft => Vec2 { x: v.x.spec_sub(Fixed { raw: WALK_SPEED_RAW }), y: v.y },
        PlayerAction::MoveRight => Vec2 { x: v.x.spec_add(Fixed { raw: WALK_SPEED_RAW }), y: v.y },
        PlayerAction::Jump => if on_ground {
            Vec2 { x: v.x, y: v.y.spec_add(Fixed { raw: JUMP_SPEED_RAW }) }
        } else {
            v
        },
    }
}

/// The velocity after the actions, one after the other.
pub open spec fn spec_player_actions(v: Velocity, actions: Seq<PlayerAction>, on_ground: bool) -> Velocity
    decreases actions.len(),
{
    if actions.len() == 0 {
        v
    } else {
        spec_player_action(
            spec_player_actions(v, actions.drop_last(), on_ground),
            actions.last(),
            on_ground,
        )
    }
}

/// The velocity that the actions leave a player with: the horizontal speed
/// starts from zero in every frame, the vertical speed carries over.
pub open spec fn spec_player_update(
    actions: Seq<PlayerAction>,
    velocity: Velocity,
    on_ground: bool,
) -> Velocity {
    spec_player_actions(Vec2 { x: Fixed { raw: 0 }, y: velocity.y }, actions, on_ground)
}

pub fn player_update(actions: &Vec<PlayerAction>, velocity: &mut Velocity, on_ground: &bool)
    ensures
        *final(velocity) == spec_player_update(actions@, *old(velocity), *on_ground),
{
    velocity.x = Fixed::zero();
    let ghost start = *velocity;
    let mut i: usize = 0;
    while i < actions.len()
        invariant
            0 <= i <= actions.len(),
            *velocity == spec_player_actions(start, actions@.subrange(0, i as int), *on_ground),
        decreases actions.len() - i,
    {
        proof {
            let more = actions@.subrange(0, i as int + 1);
            assert(more.drop_last() =~= actions@.subrange(0, i as int));
            assert(more.last() == actions@[i as int]);
        }
        match actions[i] {
            PlayerAction::MoveLeft => {
                velocity.x = velocity.x.sub(Fixed { raw: WALK_SPEED_RAW });
            },
            PlayerAction::MoveRight => {
                velocity.x = velocity.x.add(Fixed { raw: WALK_SPEED_RAW });
            },
            PlayerAction::Jump => {
                if *on_ground {
                    velocity.y = velocity.y.add(Fixed { raw: JUMP_SPEED_RAW });
                }
            },
        }
        i += 1;
    }
    proof {
        lemma_prefix_whole(actions@);
    }
}

/// The camera after one action: a move shifts it by one step, a zoom
/// scales the height it shows.
pub open spec fn spec_camera_action(cam: Camera, action: CameraAction) -> Camera {
    let step = Fixed { raw: PAN_STEP_RAW };
    match action {
        CameraAction::MoveLeft => Camera {
            pos: Vec2 { x: cam.pos.x.spec_sub(step), y: cam.pos.y },
            ..cam
        },
        CameraAction::MoveRight => Camera {
            pos: Vec2 { x: cam.pos.x.spec_add(step), y: cam.pos.y },
            ..cam
        },
        CameraAction::MoveUp => Camera {
            pos: Vec2 { x: cam.pos.x, y: cam.pos.y.spec_add(step) },
            ..cam
        },
        CameraAction::MoveDown => Camera {
            pos: Vec2 { x: cam.pos.x, y: cam.pos.y.spec_sub(step) },
            ..cam
        },
        CameraAction::ZoomOut => Camera {
            fovy: cam.fovy.spec_mul(Fixed { raw: ZOOM_OUT_RAW }),
            ..cam
        },
        CameraAction::ZoomIn => Camera { fovy: cam.fovy.spec_mul(Fixed { raw: ZOOM_IN_RAW }), ..cam },
    }
}

/// The camera after the actions, one after the other.
pub open spec fn spec_camera_update(actions: Seq<CameraAction>, cam: Camera) -> Camera
    decreases actions.len(),
{
    if actions.len() == 0 {
        cam
    } else {
        spec_camera_action(spec_camera_update(actions.drop_last(), cam), actions.last())
    }
}

pub fn camera_update(actions: &Vec<CameraAction>, cam: &mut Camera)
    ensures
        *final(cam) == spec_camera_update(actions@, *old(cam)),
{
    let step = Fixed { raw: PAN_STEP_RAW };
    let mut i: usize = 0;
    while i < actions.len()
        invariant
            0 <= i <= actions.len(),
            step.raw == PAN_STEP_RAW,
            *cam == spec_camera_update(actions@.subrange(0, i as int), *old(cam)),
        decreases actions.len() - i,
    {
        proof {
            let more = actions@.subrange(0, i as int + 1);
            assert(more.drop_last() =~= actions@.subrange(0, i as int));
            assert(more.last() == actions@[i as int]);
        }
        match actions[i] {
            CameraAction::MoveLeft => {
                cam.pos.x = cam.pos.x.sub(step);
            },
            CameraAction::MoveRight => {
                cam.pos.x = cam.pos.x.add(step);
            },
            CameraAction::MoveUp => {
                cam.pos.y = cam.pos.y.add(step);
            },
            CameraAction::MoveDown => {
                cam.pos.y = cam.pos.y.sub(step);
            },
            CameraAction::ZoomOut => {
                cam.fovy = cam.fovy.mul(Fixed { raw: ZOOM_OUT_RAW });
            },
            CameraAction::ZoomIn => {
                cam.fovy = cam.fovy.mul(Fixed { raw: ZOOM_IN_RAW });
            },
        }
        i += 1;
    }
    proof {
        lemma_prefix_whole(actions@);
    }
}

/// The world after every entity that takes player actions has taken those
/// that the input asks for: its pending actions, with the new ones behind
/// them, have set its velocity if it has one and can be grounded, and its
/// list of pending actions is empty again.
pub open spec fn spec_player_systems(w: WorldView, input: &InputState) -> WorldView {
    WorldView {
        velocities: Map::new(
            |id: ID| w.velocities.contains_key(id),
            |id: ID|
                if w.entities.contains(id) && w.player_actions.contains_key(id)
                    && w.groundables.contains_key(id) {
                    spec_player_update(
                        w.player_actions[id] + spec_player_input(input),
                        w.velocities[id],
                        w.groundables[id],
                    )
                } else {
                    w.velocities[id]
                },
        ),
        player_actions: Map::new(
            |id: ID| w.player_actions.contains_key(id),
            |id: ID|
                if w.entities.contains(id) {
                    Seq::empty()
                } else {
                    w.player_actions[id]
                },
        ),
        ..w
    }
}

/// The same for the cameras: each camera entity that takes actions has
/// carried out its pending ones and those that the input asks for.
pub open spec fn spec_camera_systems(w: WorldView, input: &InputState) -> WorldView {
    WorldView {
        cameras: Map::new(
            |id: ID| w.cameras.contains_key(id),
            |id: ID|
                if w.entities.contains(id) && w.camera_actions.contains_key(id) {
                    spec_camera_update(w.camera_actions[id] + spec_camera_input(input), w.cameras[id])
                } else {
                    w.cameras[id]
                },
        ),
        camera_actions: Map::new(
            |id: ID| w.camera_actions.contains_key(id),
            |id: ID|
                if w.entities.contains(id) {
                    Seq::empty()
                } else {
                    w.camera_actions[id]
                },
        ),
        ..w
    }
}

/// Turns the input into player actions and the actions into velocities.
fn player_systems(world: &mut World, input: &InputState)
    ensures
        final(world)@ == spec_player_systems(old(world)@, input),
{
    let ids = set_members(&world.entities);
    let ghost before = world@;
    let mut i: usize = 0;
    while i < ids.len()
        invariant
            0 <= i <= ids.len(),
            ids@.no_duplicates(),
            ids@.to_set() == before.entities,
            world@ == (WorldView {
                velocities: world@.velocities,
                player_actions: world@.player_actions,
                ..before
            }),
            world@.velocities.dom() == before.velocities.dom(),
            world@.player_actions.dom() == before.player_actions.dom(),
            forall|id: ID|
                before.velocities.contains_key(id) ==> #[trigger] world@.velocities[id] == if ids@.subrange(
                    0,
                    i as int,
                ).contains(id) && before.player_actions.contains_key(id)
                    && before.groundables.contains_key(id) {
                    spec_player_update(
                        before.player_actions[id] + spec_player_input(input),
                        before.velocities[id],
                        before.groundables[id],
                    )
                } else {
                    before.velocities[id]
                },
            forall|id: ID|
                before.player_actions.contains_key(id) ==> #[trigger] world@.player_actions[id]
                    == if ids@.subrange(0, i as int).contains(id) {
                    Seq::empty()
                } else {
                    before.player_actions[id]
                },
        decreases ids.len() - i,
    {
        let id = ids[i];
        proof {
            lemma_prefix_step(ids@, i as int);
            assert(ids@.to_set().contains(id));
        }
        let ghost held = world@.player_actions;
        proof {
            assert(held.contains_key(id) <==> world.player_actions@.contains_key(id));
            if held.contains_key(id) {
                assert(held[id] == world.player_actions@[id]@);
                assert(held[id] == before.player_actions[id]);
            }
        }
        let pending = match world.player_actions.get(&id) {
            Some(actions) => Some(copy_list(actions)),
            None => None,
        };
        if let Some(mut actions) = pending {
            assert(actions@ == before.player_actions[id]);
            player_input_controller(input, &mut actions);
            let velocity = match world.velocities.get(&id) {
                Some(v) => Some(*v),
                None => None,
            };
            let on_ground = match world.groundables.get(&id) {
                Some(g) => Some(*g),
                None => None,
            };
            if let (Some(mut velocity), Some(on_ground)) = (velocity, on_ground) {
                player_update(&actions, &mut velocity, &on_ground);
                world.velocities.insert(id, velocity);
            }
            world.player_actions.insert(id, Vec::new());
            proof {
                assert(world@.player_actions =~= held.insert(id, Seq::empty()));
                assert(world@.velocities.dom() =~= before.velocities.dom());
                assert(world@.player_actions.dom() =~= before.player_actions.dom());
                assert(world@.camera_actions =~= before.camera_actions);
            }
        }
        i += 1;
    }
    proof {
        lemma_prefix_whole(ids@);
        let after = spec_player_systems(before, input);
        assert(world@.velocities =~= after.velocities);
        assert(world@.player_actions =~= after.player_actions);
    }
}

/// Turns the input into camera actions and carries them out.
fn camera_systems(world: &mut World, input: &InputState)
    ensures
        final(world)@ == spec_camera_systems(old(world)@, input),
{
    let ids = set_members(&world.entities);
    let ghost before = world@;
    let mut i: usize = 0;
    while i < ids.len()
        invariant
            0 <= i <= ids.len(),
            ids@.no_duplicates(),
            ids@.to_set() == before.entities,
            world@ == (WorldView {
                cameras: world@.cameras,
                camera_actions: world@.camera_actions,
                ..before
            }),
            world@.cameras.dom() == before.cameras.dom(),
            world@.camera_actions.dom() == before.camera_actions.dom(),
            forall|id: ID|
                before.cameras.contains_key(id) ==> #[trigger] world@.cameras[id] == if ids@.subrange(
                    0,
                    i as int,
                ).contains(id) && before.camera_actions.contains_key(id) {
                    spec_camera_update(
                        before.camera_actions[id] + spec_camera_input(input),
                        before.cameras[id],
                    )
                } else {
                    before.cameras[id]
                },
            forall|id: ID|
                before.camera_actions.contains_key(id) ==> #[trigger] world@.camera_actions[id]
                    == if ids@.subrange(0, i as int).contains(id) {
                    Seq::empty()
                } else {
                    before.camera_actions[id]
                },
        decreases ids.len() - i,
    {
        let id = ids[i];
        proof {
            lemma_prefix_step(ids@, i as int);
            assert(ids@.to_set().contains(id));
        }
        let ghost held = world@.camera_actions;
        proof {
            assert(held.contains_key(id) <==> world.camera_actions@.contains_key(id));
            if held.contains_key(id) {
                assert(held[id] == world.camera_actions@[id]@);
                assert(held[id] == before.camera_actions[id]);
            }
        }
        let pending = match world.camera_actions.get(&id) {
            Some(actions) => Some(copy_list(actions)),
            None => None,
        };
        if let Some(mut actions) = pending {
            assert(actions@ == before.camera_actions[id]);
            camera_input_controller(input, &mut actions);
            let camera = match world.cameras.get(&id) {
                Some(c) => Some(*c),
                None => None,
            };
            if let Some(mut camera) = camera {
                camera_update(&actions, &mut camera);
                world.cameras.insert(id, camera);
            }
            world.camera_actions.insert(id, Vec::new());
            proof {
                assert(world@.camera_actions =~= held.insert(id, Seq::empty()));
                assert(world@.cameras.dom() =~= before.cameras.dom());
                assert(world@.camera_actions.dom() =~= before.camera_actions.dom());
                assert(world@.player_actions =~= before.player_actions);
            }
        }
        i += 1;
    }
    proof {
        lemma_prefix_whole(ids@);
        let after = spec_camera_systems(before, input);
        assert(world@.cameras =~= after.cameras);
        assert(world@.camera_actions =~= after.camera_actions);
    }
}

/// One frame of the world: the input is turned into actions and carried
/// out, then the simulation is given `dt` nanoseconds. Returns the
/// nanoseconds that the simulation did not use.
pub fn run_systems(world: &mut World, input: &InputState, dt: u64) -> (leftover: u64)
    ensures
        leftover == spec_leftover(dt as nat),
        final(world)@ == spec_simulation(
            spec_camera_systems(spec_player_systems(old(world)@, input), input),
            dt as nat,
        ),
{
    player_systems(world, input);
    camera_systems(world, input);
    simulation_systems(world, dt)
}

/// The block that every world is given at its start: it travels from
/// (0, 10) to (20, 10) in four seconds.
pub open spec fn spec_first_block() -> MoverBlock {
    MoverBlock {
        start: Vec2 { x: Fixed { raw: 0 }, y: Fixed { raw: 10_000_000 } },
        end: Vec2 { x: Fixed { raw: 20_000_000 }, y: Fixed { raw: 10_000_000 } },
        travel_time: Fixed { raw: 4_000_000 },
    }
}

/// A world made ready to play: it has a new player, who is the current
/// one, and the first block.
pub open spec fn spec_create_world(w: WorldView) -> WorldView {
    (WorldView { current_player: w.next, ..w.with_player() }).with_mover_block(spec_first_block())
}

/// Makes a world ready to play, out of the one that was loaded or, where
/// none was, out of an empty one.
pub fn create_world(loaded: Option<World>) -> (world: World)
    requires
        loaded matches Some(w) ==> w.next < usize::MAX - 1,
    ensures
        world@ == spec_create_world(
            match loaded {
                Some(w) => w@,
                None => WorldView::empty(),
            },
        ),
{
    let mut world = match loaded {
        Some(w) => w,
        None => World::new(),
    };
    let player = world.new_player();
    world.current_player = player;
    world.new_mover_block(Vec2::from_raw(0, 10_000_000), Vec2::from_raw(20_000_000, 10_000_000), Fixed {
        raw: 4_000_000,
    });
    world
}

} // verus!
