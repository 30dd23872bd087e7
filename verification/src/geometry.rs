//! Grid points and the integer form of Euclidean distance.

use vstd::prelude::*;

verus! {

/// A cell of the grid.
#[derive(Clone, Copy, Debug, PartialEq, Eq, Structural)]
pub struct Coord {
    pub x: i32,
    pub y: i32,
}

/// Square of the Euclidean distance between two cells.
pub open spec fn distance_squared(a: Coord, b: Coord) -> int {
    (a.x - b.x) * (a.x - b.x) + (a.y - b.y) * (a.y - b.y)
}

/// Whether two cells are strictly closer than `tenths / 10` tiles in Euclidean
/// distance. Both sides of `sqrt(d2) < tenths / 10` are squared and scaled by
/// one hundred, which keeps the comparison in the integers.
pub open spec fn closer_than(a: Coord, b: Coord, tenths: u32) -> bool {
    100 * distance_squared(a, b) < tenths * tenths
}

/// Whether two cells are strictly farther apart than `tenths / 10` tiles.
pub open spec fn farther_than(a: Coord, b: Coord, tenths: u32) -> bool {
    100 * distance_squared(a, b) > tenths * tenths
}

impl Coord {
    /// The cell in column `x` and row `y`.
    pub fn new(x: i32, y: i32) -> (p: Coord)
        ensures
            p.x == x,
            p.y == y,
    {
        Coord { x, y }
    }

    /// Square of the Euclidean distance to `other`.
    pub fn distance_squared_to(&self, other: Coord) -> (d: u128)
        ensures
            d == distance_squared(*self, other),
            d <= 0x2_0000_0000_0000_0000,
    {
        let dx: i128 = self.x as i128 - other.x as i128;
        let dy: i128 = self.y as i128 - other.y as i128;
        assert(0 <= dx * dx <= 0x1_0000_0000 * 0x1_0000_0000) by (nonlinear_arith)
            requires
                -0x1_0000_0000 <= dx <= 0x1_0000_0000,
        ;
        assert(0 <= dy * dy <= 0x1_0000_0000 * 0x1_0000_0000) by (nonlinear_arith)
            requires
                -0x1_0000_0000 <= dy <= 0x1_0000_0000,
        ;
        (dx * dx + dy * dy) as u128
    }

    /// Whether `other` is strictly closer than `tenths / 10` tiles.
    pub fn is_closer_than(&self, other: Coord, tenths: u32) -> (r: bool)
        ensures
            r == closer_than(*self, other, tenths),
    {
        let d: u128 = self.distance_squared_to(other);
        let t: u128 = tenths as u128;
        assert(0 <= t * t <= 0xffff_ffff * 0xffff_ffff) by (nonlinear_arith)
            requires
                0 <= t <= 0xffff_ffff,
        ;
        100 * d < t * t
    }

    /// Whether `other` is strictly farther away than `tenths / 10` tiles.
    pub fn is_farther_than(&self, other: Coord, tenths: u32) -> (r: bool)
        ensures
            r == farther_than(*self, other, tenths),
    {
        let d: u128 = self.distance_squared_to(other);
        let t: u128 = tenths as u128;
        assert(0 <= t * t <= 0xffff_ffff * 0xffff_ffff) by (nonlinear_arith)
            requires
                0 <= t <= 0xffff_ffff,
        ;
        100 * d > t * t
    }
}

} // verus!
