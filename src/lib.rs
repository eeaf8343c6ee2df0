//! A first-person raycasting renderer over a grid of axis-aligned wall segments.
//!
//! All camera and ray arithmetic is done in signed fixed point: a coordinate
//! `v` stands for `v / FIX_ONE` grid cells.
use vstd::prelude::*;

pub mod util;
pub mod objects;
pub mod gamestate;
pub mod raycast;
pub mod screen;

verus! {

/// Width of the screen in pixels.
pub const WIDTH: u32 = 1200;

/// Height of the screen in pixels.
pub const HEIGHT: u32 = 900;

/// Number of grid cells on each side of the square world.
pub const WORLD: u32 = 25;

/// The fixed-point value that stands for one grid cell.
pub const FIX_ONE: i64 = 65536;

} // verus!
