//! Deterministic 2D side-view world simulation on fixed-point coordinates:
//! axis-aligned boxes, gravity, axis-separated collision backout, platforms
//! on kinematic schedules and a fixed-timestep scheduler; and around them
//! the world's components, the systems that turn input into motion, a tile
//! map, the level editor's tool and the program's command line.

pub mod camera;
pub mod common;
pub mod components;
pub mod editor;
pub mod fixed;
pub mod input;
pub mod laws;
pub mod physics;
pub mod platforms;
pub mod registry;
pub mod shell;
pub mod systems;
pub mod tilemap;
