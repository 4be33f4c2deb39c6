//! Points of the integer plane and the four directions.

use vstd::prelude::*;

verus! {

/// A point of the integer plane.
#[derive(Debug, Clone, Copy, PartialEq, Eq, Structural)]
pub struct Point {
    pub x: i32,
    pub y: i32,
}

impl Point {
    pub fn new(x: i32, y: i32) -> (p: Point)
        ensures
            p.x == x,
            p.y == y,
    {
        Point { x, y }
    }

    /// The square of the distance from the origin.
    pub open spec fn norm_squared(self) -> int {
        self.x * self.x + self.y * self.y
    }

    /// The square of the distance from the origin, where it fits in 32 bits.
    pub fn squared_distance(&self) -> (d: Option<i32>)
        ensures
            match d {
                Some(v) => v == self.norm_squared(),
                None => self.norm_squared() > i32::MAX,
            },
    {
        let x: i64 = self.x as i64;
        let y: i64 = self.y as i64;
        assert(x * x <= 0x4000_0000_0000_0000 && x * x >= 0) by (nonlinear_arith)
            requires
                -0x8000_0000 <= x <= 0x7fff_ffff,
        ;
        assert(y * y <= 0x4000_0000_0000_0000 && y * y >= 0) by (nonlinear_arith)
            requires
                -0x8000_0000 <= y <= 0x7fff_ffff,
        ;
        let xx: i64 = x * x;
        let yy: i64 = y * y;
        if xx > 0x7fff_ffff || yy > 0x7fff_ffff - xx {
            None
        } else {
            Some((xx + yy) as i32)
        }
    }
}

/// The four directions.
#[derive(Debug, Clone, Copy, PartialEq, Eq, Structural)]
pub enum Direction {
    North,
    South,
    East,
    West,
}

} // verus!
