//! Small geometric types: an axis-aligned rectangle and a point-like
//! dimension pair.

use vstd::prelude::*;

verus! {

/// A rectangle described by its width and height.
#[derive(Debug, Clone, Copy, PartialEq, Eq, Structural)]
pub struct Rectangle {
    pub width: u32,
    pub height: u32,
}

impl Rectangle {
    /// Area of the rectangle.
    pub fn area(&self) -> (r: u32)
        requires
            self.height * self.width <= u32::MAX,
        ensures
            r == self.height * self.width,
    {
        self.height * self.width
    }

    /// Resets both sides to zero.
    pub fn clear(&mut self)
        ensures
            final(self).width == 0,
            final(self).height == 0,
    {
        self.height = 0;
        self.width = 0;
    }

    /// A square with the given side length.
    pub fn square(side: u32) -> (r: Rectangle)
        ensures
            r.width == side,
            r.height == side,
    {
        Rectangle { height: side, width: side }
    }
}

/// A pair of signed coordinates.
#[derive(Debug, Clone, Copy, PartialEq, Eq, Structural)]
pub struct Dimension(pub i32, pub i32);

impl Dimension {
    /// Squared distance from the origin.
    pub fn distance(&self) -> (r: i32)
        requires
            self.0 * self.0 + self.1 * self.1 <= i32::MAX,
        ensures
            r == self.0 * self.0 + self.1 * self.1,
    {
        proof {
            assert(self.0 * self.0 >= 0 && self.1 * self.1 >= 0) by (nonlinear_arith);
        }
        self.0 * self.0 + self.1 * self.1
    }
}

} // verus!
