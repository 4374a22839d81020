//! Fixed-point 2-D vectors.  Positions are held in milli-pixels, velocities
//! in micro-pixels per second and accelerations in micro-pixels per second
//! squared, so that every kinematic computation of the crate is exact
//! integer arithmetic.

use vstd::prelude::*;

verus! {

/// A 2-dimensional point (a location), in milli-pixels.
#[derive(Clone, Copy, Debug, PartialEq, Eq, Structural)]
pub struct Point2 {
    pub x: i64,
    pub y: i64,
}

/// A 2-dimensional vector (an offset, velocity or acceleration).
#[derive(Clone, Copy, Debug, PartialEq, Eq, Structural)]
pub struct Vector2 {
    pub x: i64,
    pub y: i64,
}

impl Point2 {
    pub fn new(x: i64, y: i64) -> (r: Point2)
        ensures
            r.x == x,
            r.y == y,
    {
        Point2 { x, y }
    }
}

impl Vector2 {
    pub fn new(x: i64, y: i64) -> (r: Vector2)
        ensures
            r.x == x,
            r.y == y,
    {
        Vector2 { x, y }
    }
}

} // verus!
