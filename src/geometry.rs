//! Fixed-point vectors and the axis-aligned rectangle that bounds the world.
use vstd::prelude::*;

verus! {

/// Fixed-point units in one world unit: a coordinate of `SCALE` is 1.0.
pub const SCALE: i64 = 10_000;

/// Whether an integer fits in an `i64`.
pub open spec fn fits(v: int) -> bool {
    i64::MIN <= v <= i64::MAX
}

/// A 2D point or vector, each component in units of `1 / SCALE`.
#[derive(Clone, Copy, Debug, PartialEq, Eq, Structural)]
pub struct Vec2 {
    pub x: i64,
    pub y: i64,
}

impl Vec2 {
    pub fn new(x: i64, y: i64) -> (r: Vec2)
        ensures
            r.x == x,
            r.y == y,
    {
        Vec2 { x, y }
    }

    pub fn zero() -> (r: Vec2)
        ensures
            r.x == 0,
            r.y == 0,
    {
        Vec2 { x: 0, y: 0 }
    }

    pub open spec fn is_zero(self) -> bool {
        self.x == 0 && self.y == 0
    }
}

/// An axis-aligned rectangle given by its four edges.
#[derive(Clone, Copy, Debug, PartialEq, Eq, Structural)]
pub struct Bounds {
    pub left: i64,
    pub right: i64,
    pub bottom: i64,
    pub top: i64,
}

impl Bounds {
    pub fn new(left: i64, right: i64, bottom: i64, top: i64) -> (r: Bounds)
        ensures
            r.left == left,
            r.right == right,
            r.bottom == bottom,
            r.top == top,
    {
        Bounds { left, right, bottom, top }
    }

    /// A rectangle that holds at least one point.
    pub open spec fn wf(self) -> bool {
        self.left <= self.right && self.bottom <= self.top
    }

    /// Containment with the edges counted as inside.
    pub open spec fn holds(self, p: Vec2) -> bool {
        self.left <= p.x <= self.right && self.bottom <= p.y <= self.top
    }

    pub fn contains(&self, p: Vec2) -> (r: bool)
        ensures
            r == self.holds(p),
    {
        self.left <= p.x && p.x <= self.right && self.bottom <= p.y && p.y <= self.top
    }
}

} // verus!
