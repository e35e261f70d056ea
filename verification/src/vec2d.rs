use vstd::prelude::*;

verus! {

/// A two-dimensional integer vector: a size (width, height) or a position
/// (x, y) on the final canvas. Components are non-negative by construction.
#[derive(Clone, Copy, PartialEq, Eq, Structural, Debug)]
pub struct Vec2d {
    pub x: u32,
    pub y: u32,
}

impl Vec2d {
    /// The area of a size, as an unbounded integer.
    pub open spec fn spec_area(self) -> int {
        self.x * self.y
    }

    /// The area of a size; two `u32` factors always fit in a `u64`.
    pub fn area(self) -> (r: u64)
        ensures
            r == self.spec_area(),
    {
        proof {
            assert(self.x * self.y <= u32::MAX * u32::MAX) by (nonlinear_arith)
                requires
                    self.x <= u32::MAX,
                    self.y <= u32::MAX,
            ;
        }
        (self.x as u64) * (self.y as u64)
    }

    pub fn new(x: u32, y: u32) -> (r: Vec2d)
        ensures
            r == (Vec2d { x, y }),
    {
        Vec2d { x, y }
    }
}

} // verus!
