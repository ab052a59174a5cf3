use sideworld::camera::Camera;
use sideworld::common::{Vec2, AABB};
use sideworld::components::{CameraAction, PlayerAction, World};
use sideworld::editor::{obstacle_tool_input, run_editor_systems, DrawObstacleTool, Editor};
use sideworld::fixed::Fixed;
use sideworld::input::{
    InputState, MouseButton, MouseState, KEY_A, KEY_D, KEY_E, KEY_ESCAPE, KEY_LEFT, KEY_P, KEY_Q,
    KEY_RIGHT, KEY_S, KEY_SPACE, KEY_W,
};
use sideworld::systems::{
    camera_input_controller, camera_update, player_input_controller, player_update, run_systems,
};
use std::collections::HashSet;

const MS: u64 = 1_000_000;

fn v(x: i64, y: i64) -> Vec2 {
    Vec2::from_raw(x, y)
}

fn mouse(buttons: u32) -> MouseState {
    MouseState { buttons, x: 0, y: 0 }
}

fn input(keys: &[i32], last_keys: &[i32]) -> InputState {
    InputState {
        keys: keys.iter().copied().collect::<HashSet<i32>>(),
        last_keys: last_keys.iter().copied().collect::<HashSet<i32>>(),
        key_mod: 0,
        mouse: mouse(0),
        last_mouse: mouse(0),
    }
}

fn clicks(now: u32, before: u32) -> InputState {
    InputState { mouse: mouse(now), last_mouse: mouse(before), ..input(&[], &[]) }
}

#[test]
fn key_codes_are_those_of_the_windowing_layer() {
    assert_eq!(KEY_ESCAPE, 27);
    assert_eq!(KEY_SPACE, ' ' as i32);
    assert_eq!(KEY_A, 'a' as i32);
    assert_eq!(KEY_D, 'd' as i32);
    assert_eq!(KEY_E, 'e' as i32);
    assert_eq!(KEY_P, 'p' as i32);
    assert_eq!(KEY_Q, 'q' as i32);
    assert_eq!(KEY_S, 's' as i32);
    assert_eq!(KEY_W, 'w' as i32);
    assert_eq!(KEY_RIGHT, 0x4000_004f);
    assert_eq!(KEY_LEFT, 0x4000_0050);
}

#[test]
fn a_key_is_down_while_held() {
    let s = input(&[KEY_LEFT, KEY_SPACE], &[KEY_SPACE]);
    assert!(s.key_down(&KEY_LEFT));
    assert!(s.key_down(&KEY_SPACE));
    assert!(!s.key_down(&KEY_RIGHT));
}

#[test]
fn a_key_is_pressed_when_it_goes_down() {
    let s = input(&[KEY_LEFT, KEY_SPACE], &[KEY_SPACE, KEY_W]);
    assert!(s.key_pressed(&KEY_LEFT));
    assert!(!s.key_pressed(&KEY_SPACE));
    assert!(!s.key_pressed(&KEY_W));
    assert!(!s.key_pressed(&KEY_RIGHT));
}

#[test]
fn mouse_buttons_have_a_bit_each() {
    assert_eq!(MouseButton::Left.mask(), 1);
    assert_eq!(MouseButton::Middle.mask(), 2);
    assert_eq!(MouseButton::Right.mask(), 4);
    assert_eq!(MouseButton::X1.mask(), 8);
    assert_eq!(MouseButton::X2.mask(), 16);
    assert_eq!(MouseButton::Unknown.mask(), 0);
    let m = MouseState { buttons: 0b00101, x: 3, y: -4 };
    assert!(m.is_mouse_button_pressed(MouseButton::Left));
    assert!(!m.is_mouse_button_pressed(MouseButton::Middle));
    assert!(m.is_mouse_button_pressed(MouseButton::Right));
    assert!(!m.is_mouse_button_pressed(MouseButton::X1));
    assert!(!m.is_mouse_button_pressed(MouseButton::X2));
    assert!(!m.is_mouse_button_pressed(MouseButton::Unknown));
    assert!(!mouse(u32::MAX).is_mouse_button_pressed(MouseButton::Unknown));
    assert_eq!((m.x(), m.y()), (3, -4));
}

#[test]
fn a_button_is_down_while_held_and_pressed_when_it_goes_down() {
    let s = clicks(0b101, 0b100);
    assert!(s.mouse_down(MouseButton::Left));
    assert!(s.mouse_down(MouseButton::Right));
    assert!(!s.mouse_down(MouseButton::Middle));
    assert!(s.mouse_pressed(MouseButton::Left));
    assert!(!s.mouse_pressed(MouseButton::Right));
    assert!(!s.mouse_pressed(MouseButton::Middle));
}

#[test]
fn the_player_controller_appends_in_a_fixed_order() {
    let mut actions = vec![PlayerAction::MoveLeft];
    player_input_controller(&input(&[KEY_RIGHT, KEY_LEFT, KEY_SPACE], &[]), &mut actions);
    assert_eq!(
        actions,
        vec![PlayerAction::MoveLeft, PlayerAction::Jump, PlayerAction::MoveLeft, PlayerAction::MoveRight]
    );
}

#[test]
fn a_held_space_bar_does_not_jump_again() {
    let mut actions = Vec::new();
    player_input_controller(&input(&[KEY_SPACE, KEY_RIGHT], &[KEY_SPACE, KEY_RIGHT]), &mut actions);
    assert_eq!(actions, vec![PlayerAction::MoveRight]);
    let mut none = Vec::new();
    player_input_controller(&input(&[], &[KEY_SPACE]), &mut none);
    assert_eq!(none, Vec::<PlayerAction>::new());
}

#[test]
fn the_camera_controller_appends_in_a_fixed_order() {
    let mut actions = vec![CameraAction::ZoomIn];
    camera_input_controller(&input(&[KEY_E, KEY_Q, KEY_D, KEY_S, KEY_A, KEY_W], &[]), &mut actions);
    assert_eq!(
        actions,
        vec![
            CameraAction::ZoomIn,
            CameraAction::MoveUp,
            CameraAction::MoveLeft,
            CameraAction::MoveDown,
            CameraAction::MoveRight,
            CameraAction::ZoomOut,
            CameraAction::ZoomIn,
        ]
    );
}

#[test]
fn the_camera_controller_wants_fresh_presses_and_no_modifier() {
    let mut actions = Vec::new();
    camera_input_controller(&input(&[KEY_W, KEY_A], &[KEY_W]), &mut actions);
    assert_eq!(actions, vec![CameraAction::MoveLeft]);
    let mut with_shift = Vec::new();
    let shifted = InputState { key_mod: 1, ..input(&[KEY_W, KEY_A], &[]) };
    camera_input_controller(&shifted, &mut with_shift);
    assert_eq!(with_shift, Vec::<CameraAction>::new());
}

#[test]
fn player_actions_set_the_velocity() {
    let mut vel = v(5_000_000, -3_000_000);
    player_update(&vec![PlayerAction::MoveRight], &mut vel, &false);
    assert_eq!(vel, v(24_000_000, -3_000_000));
    player_update(&vec![PlayerAction::MoveLeft], &mut vel, &false);
    assert_eq!(vel, v(-24_000_000, -3_000_000));
    player_update(&vec![PlayerAction::MoveLeft, PlayerAction::MoveRight], &mut vel, &false);
    assert_eq!(vel, v(0, -3_000_000));
    let mut idle = v(7, 7);
    player_update(&Vec::new(), &mut idle, &true);
    assert_eq!(idle, v(0, 7));
}

#[test]
fn a_jump_needs_ground() {
    let mut vel = v(0, 0);
    player_update(&vec![PlayerAction::Jump], &mut vel, &false);
    assert_eq!(vel, v(0, 0));
    player_update(&vec![PlayerAction::Jump], &mut vel, &true);
    assert_eq!(vel, v(0, 100_000_000));
    player_update(&vec![PlayerAction::Jump, PlayerAction::Jump], &mut vel, &true);
    assert_eq!(vel, v(0, 300_000_000));
}

#[test]
fn camera_actions_move_and_zoom() {
    let mut cam = Camera::new(Fixed::from_units(20), v(0, 0), v(640_000_000, 480_000_000));
    camera_update(&vec![CameraAction::MoveLeft], &mut cam);
    assert_eq!(cam.pos, v(-2_000_000, 0));
    camera_update(&vec![CameraAction::MoveRight, CameraAction::MoveRight], &mut cam);
    assert_eq!(cam.pos, v(2_000_000, 0));
    camera_update(&vec![CameraAction::MoveUp], &mut cam);
    assert_eq!(cam.pos, v(2_000_000, 2_000_000));
    camera_update(&vec![CameraAction::MoveDown, CameraAction::MoveDown], &mut cam);
    assert_eq!(cam.pos, v(2_000_000, -2_000_000));
    camera_update(&vec![CameraAction::ZoomOut], &mut cam);
    assert_eq!(cam.fovy.raw, 25_000_000);
    camera_update(&vec![CameraAction::ZoomIn], &mut cam);
    assert_eq!(cam.fovy.raw, 20_000_000);
    camera_update(&vec![CameraAction::ZoomIn], &mut cam);
    assert_eq!(cam.fovy.raw, 16_000_000);
    assert_eq!(cam.screen_height.raw, 480_000_000);
}

#[test]
fn a_frame_walks_the_player() {
    let mut w = World::new();
    let player = w.new_player();
    let left = run_systems(&mut w, &input(&[KEY_RIGHT], &[]), 16 * MS);
    assert_eq!(left, 6 * MS);
    assert_eq!(w.velocities[&player], v(24_000_000, -5_000_000));
    assert_eq!(w.positions[&player], v(8_240_000, 3_950_000));
    assert_eq!(w.player_actions[&player], Vec::<PlayerAction>::new());
    // released: the horizontal speed starts from zero in every frame
    run_systems(&mut w, &input(&[], &[KEY_RIGHT]), 10 * MS);
    assert_eq!(w.velocities[&player], v(0, -10_000_000));
    assert_eq!(w.positions[&player], v(8_240_000, 3_850_000));
}

#[test]
fn a_frame_jumps_from_the_ground_only() {
    let mut w = World::new();
    let player = w.new_player();
    // in the air: the jump is dropped
    run_systems(&mut w, &input(&[KEY_SPACE], &[]), 10 * MS);
    assert_eq!(w.velocities[&player], v(0, -5_000_000));
    // let it land on the floor
    run_systems(&mut w, &input(&[], &[]), 1000 * MS);
    assert_eq!(w.positions[&player], v(8_000_000, 0));
    assert_eq!(w.groundables[&player], true);
    run_systems(&mut w, &input(&[KEY_SPACE], &[]), 10 * MS);
    assert_eq!(w.velocities[&player], v(0, 95_000_000));
    assert_eq!(w.positions[&player], v(8_000_000, 950_000));
    assert_eq!(w.groundables[&player], false);
}

#[test]
fn a_frame_carries_out_pending_actions_first() {
    let mut w = World::new();
    let player = w.new_player();
    w.player_actions.insert(player, vec![PlayerAction::MoveLeft, PlayerAction::MoveLeft]);
    run_systems(&mut w, &input(&[KEY_RIGHT], &[]), 0);
    assert_eq!(w.velocities[&player], v(-24_000_000, 0));
    assert_eq!(w.player_actions[&player], Vec::<PlayerAction>::new());
}

#[test]
fn a_frame_moves_the_camera() {
    let mut w = World::new_with_camera(Fixed::from_units(20), v(640_000_000, 480_000_000));
    let cam = w.current_camera;
    run_systems(&mut w, &input(&[KEY_W, KEY_D, KEY_Q], &[]), 0);
    assert_eq!(w.cameras[&cam].pos, v(2_000_000, 2_000_000));
    assert_eq!(w.cameras[&cam].fovy.raw, 25_000_000);
    assert_eq!(w.camera_actions[&cam], Vec::<CameraAction>::new());
}

#[test]
fn actions_of_what_is_no_entity_stay_pending() {
    let mut w = World::new();
    w.player_actions.insert(42, vec![PlayerAction::Jump]);
    w.velocities.insert(42, v(1, 1));
    w.groundables.insert(42, true);
    run_systems(&mut w, &input(&[KEY_RIGHT], &[]), 0);
    assert_eq!(w.player_actions[&42], vec![PlayerAction::Jump]);
    assert_eq!(w.velocities[&42], v(1, 1));
}

#[test]
fn a_new_tool_is_idle() {
    let tool = DrawObstacleTool::new();
    assert_eq!(tool.pos, v(0, 0));
    assert_eq!(tool.start_pos, None);
    let editor = Editor::new();
    assert_eq!(editor.obstacle_tool, tool);
}

#[test]
fn dragging_draws_a_box() {
    let mut tool = DrawObstacleTool::new();
    let mut made = Vec::new();
    // the button goes down at (1, 1)
    obstacle_tool_input(&clicks(1, 0), &mut tool, v(1_000_000, 1_000_000), &mut made);
    assert_eq!(tool.start_pos, Some(v(1_000_000, 1_000_000)));
    assert_eq!(tool.pos, v(1_000_000, 1_000_000));
    assert!(made.is_empty());
    // held while the cursor moves
    obstacle_tool_input(&clicks(1, 1), &mut tool, v(4_000_000, -1_000_000), &mut made);
    assert_eq!(tool.start_pos, Some(v(1_000_000, 1_000_000)));
    assert_eq!(tool.pos, v(4_000_000, -1_000_000));
    assert!(made.is_empty());
    // let go at (5, -3)
    obstacle_tool_input(&clicks(0, 1), &mut tool, v(5_000_000, -3_000_000), &mut made);
    assert_eq!(tool.start_pos, None);
    assert_eq!(made, vec![AABB::new(v(3_000_000, -1_000_000), v(2_000_000, 2_000_000))]);
}

#[test]
fn without_a_press_the_tool_only_follows_the_cursor() {
    let mut tool = DrawObstacleTool::new();
    let mut made = Vec::new();
    obstacle_tool_input(&clicks(0, 0), &mut tool, v(3, 4), &mut made);
    assert_eq!(tool.pos, v(3, 4));
    assert_eq!(tool.start_pos, None);
    // held since before: no fresh press, no drag
    obstacle_tool_input(&clicks(1, 1), &mut tool, v(5, 6), &mut made);
    assert_eq!(tool.start_pos, None);
    assert!(made.is_empty());
}

#[test]
fn the_editor_adds_the_drawn_box_to_the_world() {
    let mut w = World::new_with_camera(Fixed::from_units(20), v(640_000_000, 480_000_000));
    let mut editor = Editor::new();
    assert!(!run_editor_systems(&mut w, &mut editor, &clicks(1, 0), v(1_000_000, 1_000_000)));
    assert_eq!(w.next, 2);
    assert!(!run_editor_systems(&mut w, &mut editor, &clicks(0, 1), v(5_000_000, -3_000_000)));
    assert_eq!(w.next, 3);
    assert_eq!(w.positions[&2], v(3_000_000, -1_000_000));
    assert_eq!(w.collisions[&2], AABB::new(v(0, 0), v(2_000_000, 2_000_000)));
    assert_eq!(editor.obstacle_tool.start_pos, None);
}

#[test]
fn the_editor_asks_to_save_on_p() {
    let mut w = World::new_with_camera(Fixed::from_units(20), v(640_000_000, 480_000_000));
    let mut editor = Editor::new();
    assert!(run_editor_systems(&mut w, &mut editor, &input(&[KEY_P], &[]), v(0, 0)));
    assert!(!run_editor_systems(&mut w, &mut editor, &input(&[KEY_P], &[KEY_P]), v(0, 0)));
}

#[test]
fn the_editor_needs_a_camera() {
    let mut w = World::new();
    let mut editor = Editor::new();
    assert!(!run_editor_systems(&mut w, &mut editor, &input(&[KEY_P], &[]), v(9, 9)));
    assert!(!run_editor_systems(&mut w, &mut editor, &clicks(1, 0), v(9, 9)));
    assert_eq!(editor.obstacle_tool, DrawObstacleTool::new());
    assert_eq!(w.next, 1);
}
