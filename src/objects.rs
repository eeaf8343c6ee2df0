use vstd::prelude::*;
use crate::util::Vec2U;

verus! {

/// The kind of an entity placed in the world.
#[derive(Clone, Copy, Debug, PartialEq, Eq, Structural)]
pub enum Object {
    WALL,
}

/// A color with red, green, blue and alpha channels.
#[derive(Clone, Copy, Debug, PartialEq, Eq, Structural)]
pub struct Rgba {
    pub r: u8,
    pub g: u8,
    pub b: u8,
    pub a: u8,
}

impl Rgba {
    /// An opaque color.
    pub fn rgb(r: u8, g: u8, b: u8) -> (c: Self)
        ensures
            c == (Rgba { r, g, b, a: 255 }),
    {
        Rgba { r, g, b, a: 255 }
    }
}

/// A straight wall segment with a flat color.
#[derive(Clone, Copy, Debug, PartialEq, Eq, Structural)]
pub struct Entity {
    pub kind: Object,
    pub start: Vec2U,
    pub end: Vec2U,
    pub color: Rgba,
}

impl Entity {
    pub fn wall(start: Vec2U, end: Vec2U, color: Rgba) -> (e: Self)
        ensures
            e == (Entity { kind: Object::WALL, start, end, color }),
    {
        Self { kind: Object::WALL, start, end, color }
    }
}

} // verus!
