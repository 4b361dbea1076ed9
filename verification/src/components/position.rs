use vstd::prelude::*;
use crate::components::cube::{
    cube_distance, distance_fits, distance_from_differences, lemma_cube_distance_symmetric,
    lemma_cube_distance_zero, lemma_cube_triangle,
};

verus! {

/// Hexagonal map position in cube coordinates `q`, `r` and `s`.
#[derive(Clone, Copy, Debug, PartialEq, Eq, Structural)]
pub struct Position {
    pub q: i32,
    pub r: i32,
    pub s: i32,
}

/// The distance of two positions.
pub open spec fn position_distance(a: Position, b: Position) -> int {
    cube_distance(a.q - b.q, a.r - b.r, a.s - b.s)
}

/// Whether the distance of two positions can be computed in `i32` arithmetic.
pub open spec fn positions_distance_fits(a: Position, b: Position) -> bool {
    distance_fits(a.q - b.q, a.r - b.r, a.s - b.s)
}

impl Position {
    /// The position at the origin.
    pub fn zero() -> (position: Position)
        ensures
            position == (Position { q: 0, r: 0, s: 0 }),
    {
        Position { q: 0, r: 0, s: 0 }
    }

    /// Creates a position from axial coordinates.
    pub fn new_axial(q: i32, r: i32) -> (position: Position)
        requires
            q != i32::MIN,
            i32::MIN <= -q - r <= i32::MAX,
        ensures
            position == (Position { q, r, s: (-q - r) as i32 }),
    {
        Position { q, r, s: -q - r }
    }

    /// Creates a position from cube coordinates.
    pub fn new_cube(q: i32, r: i32, s: i32) -> (position: Position)
        ensures
            position == (Position { q, r, s }),
    {
        Position { q, r, s }
    }

    /// The number of steps from this position to `other`.
    pub fn distance_to(&self, other: &Position) -> (distance: i32)
        requires
            positions_distance_fits(*self, *other),
        ensures
            distance == position_distance(*self, *other),
    {
        distance_from_differences(self.q - other.q, self.r - other.r, self.s - other.s)
    }

    /// Whether `other` is one step away.
    pub fn is_neighbour(&self, other: &Position) -> (result: bool)
        requires
            positions_distance_fits(*self, *other),
        ensures
            result == (position_distance(*self, *other) == 1),
    {
        self.distance_to(other) == 1
    }
}

/// The distance from `a` to `b` is the distance from `b` to `a`.
pub proof fn lemma_position_distance_symmetric(a: Position, b: Position)
    ensures
        position_distance(a, b) == position_distance(b, a),
{
    lemma_cube_distance_symmetric(a.q - b.q, a.r - b.r, a.s - b.s);
}

/// Two positions with `q + r + s == 0` are at distance 0 exactly when their
/// coordinates agree.
pub proof fn lemma_position_distance_zero(a: Position, b: Position)
    requires
        a.q + a.r + a.s == 0,
        b.q + b.r + b.s == 0,
    ensures
        position_distance(a, b) == 0 <==> (a.q == b.q && a.r == b.r && a.s == b.s),
{
    lemma_cube_distance_zero(a.q - b.q, a.r - b.r, a.s - b.s);
}

/// For positions with `q + r + s == 0`, going over a third one is never shorter.
pub proof fn lemma_position_distance_triangle(a: Position, b: Position, c: Position)
    requires
        a.q + a.r + a.s == 0,
        b.q + b.r + b.s == 0,
        c.q + c.r + c.s == 0,
    ensures
        position_distance(a, c) <= position_distance(a, b) + position_distance(b, c),
{
    lemma_cube_triangle(a.q - b.q, a.r - b.r, a.s - b.s, b.q - c.q, b.r - c.r, b.s - c.s);
}

} // verus!

