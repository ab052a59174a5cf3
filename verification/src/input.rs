//! One frame's worth of keyboard and mouse state, as plain values.

use std::collections::HashSet;
use vstd::prelude::*;

verus! {

broadcast use vstd::std_specs::hash::group_hash_axioms;

/// The code of a key, as the windowing layer numbers them.
pub type Keycode = i32;

pub const KEY_ESCAPE: Keycode = 27;

pub const KEY_SPACE: Keycode = 32;

pub const KEY_A: Keycode = 97;

pub const KEY_D: Keycode = 100;

pub const KEY_E: Keycode = 101;

pub const KEY_P: Keycode = 112;

pub const KEY_Q: Keycode = 113;

pub const KEY_S: Keycode = 115;

pub const KEY_W: Keycode = 119;

pub const KEY_RIGHT: Keycode = 1073741903;

pub const KEY_LEFT: Keycode = 1073741904;

/// A button of the mouse.
#[derive(Clone, Copy, PartialEq, Eq, Debug, Structural)]
pub enum MouseButton {
    Unknown,
    Left,
    Middle,
    Right,
    X1,
    X2,
}

impl MouseButton {
    /// The bit that stands for the button in a mask of held buttons. The
    /// unknown button has none.
    pub open spec fn spec_mask(self) -> u32 {
        match self {
            MouseButton::Unknown => 0,
            MouseButton::Left => 1,
            MouseButton::Middle => 2,
            MouseButton::Right => 4,
            MouseButton::X1 => 8,
            MouseButton::X2 => 16,
        }
    }

    #[verifier::when_used_as_spec(spec_mask)]
    pub fn mask(self) -> (m: u32)
        ensures
            m == self.spec_mask(),
    {
        match self {
            MouseButton::Unknown => 0,
            MouseButton::Left => 1,
            MouseButton::Middle => 2,
            MouseButton::Right => 4,
            MouseButton::X1 => 8,
            MouseButton::X2 => 16,
        }
    }
}

/// Where the mouse is on the screen and which of its buttons are held.
#[derive(Clone, Copy, PartialEq, Eq, Debug, Structural)]
pub struct MouseState {
    /// One bit for each held button.
    pub buttons: u32,
    pub x: i32,
    pub y: i32,
}

impl MouseState {
    pub open spec fn spec_is_mouse_button_pressed(self, b: MouseButton) -> bool {
        self.buttons & b.spec_mask() != 0
    }

    pub fn x(&self) -> (x: i32)
        ensures
            x == self.x,
    {
        self.x
    }

    pub fn y(&self) -> (y: i32)
        ensures
            y == self.y,
    {
        self.y
    }

    /// Whether the button `b` is held. The unknown button never is.
    pub fn is_mouse_button_pressed(&self, b: MouseButton) -> (held: bool)
        ensures
            held == self.spec_is_mouse_button_pressed(b),
    {
        self.buttons & b.mask() != 0
    }
}

/// The keys and buttons held in this frame and in the one before.
pub struct InputState {
    pub keys: HashSet<Keycode>,
    pub last_keys: HashSet<Keycode>,
    /// The held modifier keys, one bit each; zero when none is held.
    pub key_mod: u16,
    pub mouse: MouseState,
    pub last_mouse: MouseState,
}

impl InputState {
    pub open spec fn spec_key_down(&self, k: Keycode) -> bool {
        self.keys@.contains(k)
    }

    /// A key counts as pressed in the frame in which it goes down.
    pub open spec fn spec_key_pressed(&self, k: Keycode) -> bool {
        self.keys@.contains(k) && !self.last_keys@.contains(k)
    }

    pub open spec fn spec_mouse_down(&self, b: MouseButton) -> bool {
        self.mouse.spec_is_mouse_button_pressed(b)
    }

    /// A button counts as pressed in the frame in which it goes down.
    pub open spec fn spec_mouse_pressed(&self, b: MouseButton) -> bool {
        self.mouse.spec_is_mouse_button_pressed(b) && !self.last_mouse.spec_is_mouse_button_pressed(
            b,
        )
    }

    pub fn key_down(&self, k: &Keycode) -> (held: bool)
        ensures
            held == self.spec_key_down(*k),
    {
        self.keys.contains(k)
    }

    pub fn key_pressed(&self, k: &Keycode) -> (pressed: bool)
        ensures
            pressed == self.spec_key_pressed(*k),
    {
        self.keys.contains(k) && !self.last_keys.contains(k)
    }

    pub fn mouse_pressed(&self, b: MouseButton) -> (pressed: bool)
        ensures
            pressed == self.spec_mouse_pressed(b),
    {
        self.mouse.is_mouse_button_pressed(b) && !self.last_mouse.is_mouse_button_pressed(b)
    }

    pub fn mouse_down(&self, b: MouseButton) -> (held: bool)
        ensures
            held == self.spec_mouse_down(b),
    {
        self.mouse.is_mouse_button_pressed(b)
    }
}

} // verus!
