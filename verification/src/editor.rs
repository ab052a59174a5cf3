//! The level editor's tool for drawing obstacles with the mouse.

use crate::common::{Vec2, AABB};
use crate::components::{World, WorldView};
use crate::fixed::{Fixed, SCALE};
use crate::input::{InputState, MouseButton, KEY_P};
use vstd::prelude::*;

verus! {

broadcast use vstd::std_specs::hash::group_hash_axioms;

/// The tool that draws an obstacle: a box is dragged out from the point at
/// which the left button went down to the point at which it is let go.
#[derive(Clone, Copy, PartialEq, Eq, Debug, Structural)]
pub struct DrawObstacleTool {
    /// Where the cursor is, in the world.
    pub pos: Vec2,
    /// Where the box that is being dragged out began, if one is.
    pub start_pos: Option<Vec2>,
}

impl DrawObstacleTool {
    pub fn new() -> (tool: DrawObstacleTool)
        ensures
            tool.pos == (Vec2 { x: Fixed { raw: 0 }, y: Fixed { raw: 0 } }),
            tool.start_pos is None,
    {
        DrawObstacleTool { pos: Vec2::from_raw(0, 0), start_pos: None }
    }
}

pub struct Editor {
    pub obstacle_tool: DrawObstacleTool,
}

impl Editor {
    pub fn new() -> (editor: Editor)
        ensures
            editor.obstacle_tool.pos == (Vec2 { x: Fixed { raw: 0 }, y: Fixed { raw: 0 } }),
            editor.obstacle_tool.start_pos is None,
    {
        Editor { obstacle_tool: DrawObstacleTool::new() }
    }
}

/// The box between two corners: centered halfway between them, and half as
/// wide and high as they are apart.
pub open spec fn spec_drawn_box(from: Vec2, to: Vec2) -> AABB {
    let two = Fixed::of(2 * SCALE);
    AABB {
        center: to.spec_add(from).spec_shrink(two),
        half_size: to.spec_sub(from).spec_abs().spec_shrink(two),
    }
}

/// The tool after a frame with the cursor at `cursor`: a drag begins when
/// the left button goes down and ends when it is no longer held.
pub open spec fn spec_tool_after(
    input: &InputState,
    tool: DrawObstacleTool,
    cursor: Vec2,
) -> DrawObstacleTool {
    DrawObstacleTool {
        pos: cursor,
        start_pos: match tool.start_pos {
            Some(start) => if input.spec_mouse_down(MouseButton::Left) {
                Some(start)
            } else {
                None
            },
            None => if input.spec_mouse_pressed(MouseButton::Left) {
                Some(cursor)
            } else {
                None
            },
        },
    }
}

/// The box that the frame finishes, if it ends a drag.
pub open spec fn spec_tool_creates(
    input: &InputState,
    tool: DrawObstacleTool,
    cursor: Vec2,
) -> Option<AABB> {
    match tool.start_pos {
        Some(start) => if input.spec_mouse_down(MouseButton::Left) {
            None
        } else {
            Some(spec_drawn_box(start, cursor))
        },
        None => None,
    }
}

/// Moves the tool to the cursor, begins or ends a drag as the left button
/// says, and appends the box of a drag that ended to `create`.
pub fn obstacle_tool_input(
    input: &InputState,
    tool: &mut DrawObstacleTool,
    cursor: Vec2,
    create: &mut Vec<AABB>,
)
    ensures
        *final(tool) == spec_tool_after(input, *old(tool), cursor),
        final(create)@ == match spec_tool_creates(input, *old(tool), cursor) {
            Some(bbox) => old(create)@.push(bbox),
            None => old(create)@,
        },
{
    tool.pos = cursor;
    if let Some(start_pos) = tool.start_pos {
        if !input.mouse_down(MouseButton::Left) {
            let two = Fixed::from_units(2);
            let bbox = AABB {
                center: tool.pos.add(start_pos).shrink(two),
                half_size: tool.pos.sub(start_pos).abs().shrink(two),
            };
            create.push(bbox);
            tool.start_pos = None;
        }
    } else {
        if input.mouse_pressed(MouseButton::Left) {
            tool.start_pos = Some(tool.pos);
        }
    }
}

/// The world after a frame of the editor: where the frame ended a drag, and
/// the world has a current camera to drag under, the world has the box as a
/// new obstacle.
pub open spec fn spec_editor_world(
    w: WorldView,
    input: &InputState,
    tool: DrawObstacleTool,
    cursor: Vec2,
) -> WorldView {
    if w.cameras.contains_key(w.current_camera) {
        match spec_tool_creates(input, tool, cursor) {
            Some(bbox) => w.with_static_obstacle(
                bbox.center,
                bbox.half_size.spec_scale(Fixed::of(2 * SCALE)),
            ),
            None => w,
        }
    } else {
        w
    }
}

/// One frame of the editor, with the cursor at the world point `cursor`.
/// Nothing happens in a world without a current camera. Returns whether the
/// user asked for the world to be saved.
pub fn run_editor_systems(
    world: &mut World,
    editor: &mut Editor,
    input: &InputState,
    cursor: Vec2,
) -> (save: bool)
    requires
        old(world).next < usize::MAX,
    ensures
        save == (old(world)@.cameras.contains_key(old(world)@.current_camera)
            && input.spec_key_pressed(KEY_P)),
        final(editor).obstacle_tool == if old(world)@.cameras.contains_key(
            old(world)@.current_camera,
        ) {
            spec_tool_after(input, old(editor).obstacle_tool, cursor)
        } else {
            old(editor).obstacle_tool
        },
        final(world)@ == spec_editor_world(old(world)@, input, old(editor).obstacle_tool, cursor),
{
    let mut create_statics: Vec<AABB> = Vec::new();
    let mut save = false;
    if world.cameras.contains_key(&world.current_camera) {
        let mut tool = editor.obstacle_tool;
        obstacle_tool_input(input, &mut tool, cursor, &mut create_statics);
        editor.obstacle_tool = tool;
        save = input.key_pressed(&KEY_P);
    }
    if create_statics.len() > 0 {
        let bbox = create_statics[0];
        world.new_static_obstacle(bbox.center, bbox.half_size.scale(Fixed::from_units(2)));
    }
    save
}

} // verus!
