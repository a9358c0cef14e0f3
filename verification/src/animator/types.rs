//! The value types of a scene.
use vstd::prelude::*;

verus! {

/// A color in one of the notations of style sheets.
#[derive(Debug, Clone, Copy, PartialEq, Eq)]
pub enum Color {
    RGB(u8, u8, u8),
    RGBA(u8, u8, u8, u8),
    HEX(u32),
    HSL(u32, u32, u32),
    HSLA(u32, u32, u32, u32),
}

/// The direction in which a transition is played.
#[derive(Debug, Clone, Copy, PartialEq, Eq)]
pub enum Direction {
    Normal,
    Reverse,
    Alternate,
    AlternateReverse,
}

} // verus!
