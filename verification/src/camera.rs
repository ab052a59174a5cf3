//! The camera's state. How it maps the world to the screen is the
//! presentation layer's business; the simulation only moves it.

use crate::common::Vec2;
use crate::fixed::Fixed;
use vstd::prelude::*;

verus! {

/// A view onto the world.
#[derive(Clone, Copy, PartialEq, Eq, Debug, Structural)]
pub struct Camera {
    /// Height of the visible part of the world, in world units.
    pub fovy: Fixed,
    /// Width of the visible part over its height.
    pub ratio: Fixed,
    /// Height of the screen, in pixels.
    pub screen_height: Fixed,
    /// The world point at the center of the view.
    pub pos: Vec2,
}

impl Camera {
    /// A camera that shows `fovy` world units of height, centered on `pos`,
    /// on a screen of `screen_size` pixels.
    pub fn new(fovy: Fixed, pos: Vec2, screen_size: Vec2) -> (c: Camera)
        ensures
            c == (Camera {
                fovy,
                ratio: screen_size.x.spec_div(screen_size.y),
                screen_height: screen_size.y,
                pos,
            }),
    {
        Camera { fovy, ratio: screen_size.x.div(screen_size.y), screen_height: screen_size.y, pos }
    }
}

} // verus!
