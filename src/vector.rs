//! Two-dimensional vectors of fixed-point components.
use vstd::prelude::*;

verus! {

/// A spatial 2-vector; each component is a raw fixed-point value.
#[derive(Clone, Copy, Debug, PartialEq, Eq, Structural)]
pub struct Vec2 {
    pub x: i128,
    pub y: i128,
}

/// Both components of `v` lie in `[-b, b]`.
pub open spec fn vec_within(v: Vec2, b: int) -> bool {
    -b <= v.x && v.x <= b && -b <= v.y && v.y <= b
}

/// The exact dot product of the raw components (scaled by one squared).
pub open spec fn raw_dot(a: Vec2, b: Vec2) -> int {
    a.x * b.x + a.y * b.y
}

/// The pair of integers as a vector.
pub open spec fn to_vec(p: (int, int)) -> Vec2 {
    Vec2 { x: p.0 as i128, y: p.1 as i128 }
}

/// The vector pointing the other way.
pub open spec fn neg_vec(v: Vec2) -> Vec2 {
    Vec2 { x: (-v.x) as i128, y: (-v.y) as i128 }
}

impl Vec2 {
    pub fn new(x: i128, y: i128) -> (r: Vec2)
        ensures
            r.x == x,
            r.y == y,
    {
        Vec2 { x, y }
    }

    pub fn zero() -> (r: Vec2)
        ensures
            r.x == 0,
            r.y == 0,
    {
        Vec2 { x: 0, y: 0 }
    }

    pub fn is_zero(&self) -> (r: bool)
        ensures
            r == (self.x == 0 && self.y == 0),
    {
        self.x == 0 && self.y == 0
    }

    pub fn add(&self, o: &Vec2) -> (r: Vec2)
        requires
            i128::MIN <= self.x + o.x <= i128::MAX,
            i128::MIN <= self.y + o.y <= i128::MAX,
        ensures
            r.x == self.x + o.x,
            r.y == self.y + o.y,
    {
        Vec2 { x: self.x + o.x, y: self.y + o.y }
    }

    pub fn sub(&self, o: &Vec2) -> (r: Vec2)
        requires
            i128::MIN <= self.x - o.x <= i128::MAX,
            i128::MIN <= self.y - o.y <= i128::MAX,
        ensures
            r.x == self.x - o.x,
            r.y == self.y - o.y,
    {
        Vec2 { x: self.x - o.x, y: self.y - o.y }
    }

    pub fn neg(&self) -> (r: Vec2)
        requires
            self.x > i128::MIN,
            self.y > i128::MIN,
        ensures
            r.x == -self.x,
            r.y == -self.y,
    {
        Vec2 { x: -self.x, y: -self.y }
    }

    /// The vector turned a quarter turn counter-clockwise.
    pub fn perp(&self) -> (r: Vec2)
        requires
            self.y > i128::MIN,
        ensures
            r.x == -self.y,
            r.y == self.x,
    {
        Vec2 { x: -self.y, y: self.x }
    }
}

} // verus!
