use vstd::prelude::*;

verus! {

/// A point of the 256 x 256 canvas coordinate space.
#[derive(Debug, Clone, Copy, PartialEq, Eq, Structural)]
pub struct Position {
    /// X coordinate
    pub x: u8,
    /// Y coordinate
    pub y: u8,
}

/// A colour with alpha. `a == 0` is fully transparent, `a == 255` fully opaque.
#[derive(Debug, Clone, Copy, PartialEq, Eq, Structural)]
pub struct Color {
    pub a: u8,
    pub r: u8,
    pub g: u8,
    pub b: u8,
}

impl Color {
    pub fn new(a: u8, r: u8, g: u8, b: u8) -> (c: Self)
        ensures
            c == (Color { a, r, g, b }),
    {
        Self { a, r, g, b }
    }

    /// The channels in the order red, green, blue, alpha.
    pub open spec fn rgba(self) -> Seq<u8> {
        seq![self.r, self.g, self.b, self.a]
    }
}

} // verus!
