//! Colors, positions and the error type of the drawing operations.
use vstd::prelude::*;

verus! {

/// An RGB color.
#[derive(Clone, Copy, Debug, PartialEq, Eq, Structural)]
pub struct Pixel {
    pub r: u8,
    pub g: u8,
    pub b: u8,
}

impl Pixel {
    pub fn new(r: u8, g: u8, b: u8) -> (pixel: Self)
        ensures
            pixel == (Pixel { r, g, b }),
    {
        Pixel { r, g, b }
    }
}

pub type Color = Pixel;

impl Color {
    /// The three channels in the order in which a color table stores them.
    pub open spec fn spec_bytes(self) -> Seq<u8> {
        seq![self.r, self.g, self.b]
    }

    pub fn as_bytes(&self) -> (bytes: [u8; 3])
        ensures
            bytes@ == self.spec_bytes(),
    {
        [self.r, self.g, self.b]
    }
}

/// A pixel position on a canvas; `x` counts columns and `y` counts rows.
#[derive(Clone, Copy, Debug, PartialEq, Eq, Structural)]
pub struct Position {
    pub x: usize,
    pub y: usize,
}

impl Position {
    pub fn new(x: usize, y: usize) -> (position: Self)
        ensures
            position == (Position { x, y }),
    {
        Position { x, y }
    }
}

/// A position that may lie outside the canvas, to the left of it or above it.
#[derive(Clone, Copy, Debug, PartialEq, Eq, Structural)]
pub struct IPosition {
    pub x: isize,
    pub y: isize,
}

impl IPosition {
    pub fn new(x: isize, y: isize) -> (position: Self)
        ensures
            position == (IPosition { x, y }),
    {
        IPosition { x, y }
    }
}

/// Why a drawing operation left its canvas untouched.
#[derive(Clone, Copy, Debug, PartialEq, Eq, Structural)]
pub enum DrawError {
    /// The end of an interval or of a rectangle lies before its start.
    InvertedInterval,
    /// The region reaches outside the canvas.
    InvalidRegion,
    /// The color table already holds 256 colors and the color is not one of them.
    PaletteCapacityExceeded,
}

impl DrawError {
    /// What went wrong, in words.
    pub open spec fn spec_description(&self) -> Seq<char> {
        match self {
            DrawError::InvertedInterval => "inverted interval"@,
            DrawError::InvalidRegion => "invalid region"@,
            DrawError::PaletteCapacityExceeded => "palette capacity exceeded"@,
        }
    }

    pub fn description(&self) -> (text: &'static str)
        ensures
            text@ == self.spec_description(),
    {
        match self {
            DrawError::InvertedInterval => "inverted interval",
            DrawError::InvalidRegion => "invalid region",
            DrawError::PaletteCapacityExceeded => "palette capacity exceeded",
        }
    }
}

} // verus!
