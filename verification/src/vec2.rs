use vstd::prelude::*;

verus! {

/// A pair of 32-bit integer coordinates: a cell position, a world size or an
/// offset between neighbouring cells.
#[derive(Clone, Copy, Debug, PartialEq, Eq, Structural)]
pub struct IVec2 {
    pub x: i32,
    pub y: i32,
}

/// Builds the vector `(x, y)`.
pub fn ivec2(x: i32, y: i32) -> (r: IVec2)
    ensures
        r == (IVec2 { x, y }),
{
    IVec2 { x, y }
}

/// The vector `(x, y)`, for integers that fit in an `i32`.
pub open spec fn vec_at(x: int, y: int) -> IVec2 {
    IVec2 { x: x as i32, y: y as i32 }
}

/// Whether both coordinates of `(x, y)` fit in an `i32`.
pub open spec fn fits_i32(x: int, y: int) -> bool {
    i32::MIN <= x <= i32::MAX && i32::MIN <= y <= i32::MAX
}

impl IVec2 {
    /// The zero vector.
    pub fn zero() -> (r: IVec2)
        ensures
            r == (IVec2 { x: 0, y: 0 }),
    {
        IVec2 { x: 0, y: 0 }
    }

    /// Componentwise sum.
    pub fn plus(self, rhs: IVec2) -> (r: IVec2)
        requires
            fits_i32(self.x + rhs.x, self.y + rhs.y),
        ensures
            r.x == self.x + rhs.x,
            r.y == self.y + rhs.y,
    {
        IVec2 { x: self.x + rhs.x, y: self.y + rhs.y }
    }

    /// Componentwise difference.
    pub fn minus(self, rhs: IVec2) -> (r: IVec2)
        requires
            fits_i32(self.x - rhs.x, self.y - rhs.y),
        ensures
            r.x == self.x - rhs.x,
            r.y == self.y - rhs.y,
    {
        IVec2 { x: self.x - rhs.x, y: self.y - rhs.y }
    }

    /// Componentwise negation.
    pub fn negated(self) -> (r: IVec2)
        requires
            self.x != i32::MIN,
            self.y != i32::MIN,
        ensures
            r.x == -self.x,
            r.y == -self.y,
    {
        IVec2 { x: -self.x, y: -self.y }
    }

    /// Both components multiplied by `k`.
    pub fn scaled(self, k: i32) -> (r: IVec2)
        requires
            fits_i32(self.x * k, self.y * k),
        ensures
            r.x == self.x * k,
            r.y == self.y * k,
    {
        IVec2 { x: self.x * k, y: self.y * k }
    }
}

} // verus!
