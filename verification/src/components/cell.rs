use vstd::prelude::*;
use crate::components::cube::{
    cube_distance, distance_fits, distance_from_differences, lemma_cube_distance_symmetric,
    lemma_cube_distance_zero, lemma_cube_triangle,
};

verus! {

/// A hexagon of the map in cube coordinates `q`, `r` and `s`; for a hexagon
/// made from axial coordinates `q + r + s == 0`.
#[derive(Clone, Copy, Debug, Hash, PartialEq, Eq, Structural)]
pub struct Cell {
    pub q: i32,
    pub r: i32,
    pub s: i32,
}

/// The six directions of the neighbours of a hexagon.
#[derive(Clone, Copy, Debug, PartialEq, Eq, Structural)]
pub enum Direction {
    East,
    NorthEast,
    NorthWest,
    West,
    SouthWest,
    SouthEast,
}

/// The third cube coordinate that makes `axis_1 + axis_2 + result == 0`.
pub fn calculate_axis(axis_1: i32, axis_2: i32) -> (result: i32)
    requires
        axis_1 != i32::MIN,
        i32::MIN <= -axis_1 - axis_2 <= i32::MAX,
    ensures
        result == -axis_1 - axis_2,
{
    -axis_1 - axis_2
}

/// Whether `-q - r` is an `i32`, so that axial coordinates `q`, `r` make a hexagon.
pub open spec fn axial_fits(q: i32, r: i32) -> bool {
    q != i32::MIN && i32::MIN <= -q - r <= i32::MAX
}

/// The cube coordinate offset of one step in a direction, as `(q, r, s)`.
pub open spec fn direction_offset(direction: Direction) -> (int, int, int) {
    match direction {
        Direction::East => (1, 0, -1),
        Direction::NorthEast => (1, -1, 0),
        Direction::NorthWest => (0, -1, 1),
        Direction::West => (-1, 0, 1),
        Direction::SouthWest => (-1, 1, 0),
        Direction::SouthEast => (0, 1, -1),
    }
}

/// The direction that leads back from a step in `direction`.
pub open spec fn opposite(direction: Direction) -> Direction {
    match direction {
        Direction::East => Direction::West,
        Direction::NorthEast => Direction::SouthWest,
        Direction::NorthWest => Direction::SouthEast,
        Direction::West => Direction::East,
        Direction::SouthWest => Direction::NorthEast,
        Direction::SouthEast => Direction::NorthWest,
    }
}

/// Whether no coordinate of `cell` is at the edge of the `i32` range, so that
/// every neighbour of it is a `Cell` again.
pub open spec fn is_inner(cell: Cell) -> bool {
    &&& i32::MIN < cell.q < i32::MAX
    &&& i32::MIN < cell.r < i32::MAX
    &&& i32::MIN < cell.s < i32::MAX
}

/// The neighbour of `cell` one step in `direction`.
pub open spec fn spec_neighbour(cell: Cell, direction: Direction) -> Cell {
    let (dq, dr, ds) = direction_offset(direction);
    Cell { q: (cell.q + dq) as i32, r: (cell.r + dr) as i32, s: (cell.s + ds) as i32 }
}

/// The distance of two hexagons.
pub open spec fn spec_distance(a: Cell, b: Cell) -> int {
    cube_distance(a.q - b.q, a.r - b.r, a.s - b.s)
}

/// Whether the distance of `a` and `b` can be computed in `i32` arithmetic.
pub open spec fn cells_distance_fits(a: Cell, b: Cell) -> bool {
    distance_fits(a.q - b.q, a.r - b.r, a.s - b.s)
}

impl Cell {
    /// Whether the distance to `other` can be computed in `i32` arithmetic.
    pub fn distance_fits_with(&self, other: &Cell) -> (fits: bool)
        ensures
            fits == cells_distance_fits(*self, *other),
    {
        let dq = self.q as i64 - other.q as i64;
        let dr = self.r as i64 - other.r as i64;
        let ds = self.s as i64 - other.s as i64;
        let low = i32::MIN as i64;
        let high = i32::MAX as i64;
        if !(low < dq && dq <= high && low < dr && dr <= high && low < ds && ds <= high) {
            return false;
        }
        let aq = if dq < 0 { -dq } else { dq };
        let ar = if dr < 0 { -dr } else { dr };
        let as_ = if ds < 0 { -ds } else { ds };
        aq + ar + as_ <= high
    }

    /// The hexagon at the origin.
    pub fn zero() -> (cell: Cell)
        ensures
            cell == (Cell { q: 0, r: 0, s: 0 }),
    {
        Cell { q: 0, r: 0, s: 0 }
    }

    /// Creates a position from axial coordinates.
    pub fn new_axial(q: i32, r: i32) -> (cell: Cell)
        requires
            axial_fits(q, r),
        ensures
            cell == (Cell { q, r, s: (-q - r) as i32 }),
    {
        Cell { q, r, s: calculate_axis(q, r) }
    }

    /// Moves along the `q` axis, keeping `r`.
    pub fn move_q(&self, length: i32) -> (cell: Cell)
        requires
            i32::MIN <= self.q + length <= i32::MAX,
            i32::MIN <= self.s - length <= i32::MAX,
        ensures
            cell == (Cell { q: (self.q + length) as i32, r: self.r, s: (self.s - length) as i32 }),
    {
        Self::new_cube(self.q + length, self.r, self.s - length)
    }

    /// Moves along the `r` axis, keeping `q`.
    pub fn move_r(&self, length: i32) -> (cell: Cell)
        requires
            i32::MIN <= self.r + length <= i32::MAX,
            i32::MIN <= self.s - length <= i32::MAX,
        ensures
            cell == (Cell { q: self.q, r: (self.r + length) as i32, s: (self.s - length) as i32 }),
    {
        Self::new_cube(self.q, self.r + length, self.s - length)
    }

    /// Moves along the `s` axis, keeping `s`.
    pub fn move_s(&self, length: i32) -> (cell: Cell)
        requires
            i32::MIN <= self.q - length <= i32::MAX,
            i32::MIN <= self.r + length <= i32::MAX,
        ensures
            cell == (Cell { q: (self.q - length) as i32, r: (self.r + length) as i32, s: self.s }),
    {
        Self::new_cube(self.q - length, self.r + length, self.s)
    }

    /// Creates a position from cube coordinates.
    pub fn new_cube(q: i32, r: i32, s: i32) -> (cell: Cell)
        ensures
            cell == (Cell { q, r, s }),
    {
        Cell { q, r, s }
    }

    pub fn get_q(&self) -> (q: i32)
        ensures
            q == self.q,
    {
        self.q
    }

    pub fn get_r(&self) -> (r: i32)
        ensures
            r == self.r,
    {
        self.r
    }

    pub fn get_s(&self) -> (s: i32)
        ensures
            s == self.s,
    {
        self.s
    }

    /// The number of steps from this hexagon to `other`.
    pub fn distance_to(&self, other: &Cell) -> (distance: i32)
        requires
            cells_distance_fits(*self, *other),
        ensures
            distance == spec_distance(*self, *other),
    {
        distance_from_differences(self.q - other.q, self.r - other.r, self.s - other.s)
    }

    /// Whether `other` is one step away.
    pub fn is_neighbour(&self, other: &Cell) -> (result: bool)
        requires
            cells_distance_fits(*self, *other),
        ensures
            result == (spec_distance(*self, *other) == 1),
    {
        self.distance_to(other) == 1
    }

    /// The neighbour one step in `direction`.
    pub fn get_neighbour(&self, direction: Direction) -> (cell: Cell)
        requires
            is_inner(*self),
        ensures
            cell == spec_neighbour(*self, direction),
    {
        let direction = match direction {
            Direction::East => Cell::new_cube(1, 0, -1),
            Direction::NorthEast => Cell::new_cube(1, -1, 0),
            Direction::NorthWest => Cell::new_cube(0, -1, 1),
            Direction::West => Cell::new_cube(-1, 0, 1),
            Direction::SouthWest => Cell::new_cube(-1, 1, 0),
            Direction::SouthEast => Cell::new_cube(0, 1, -1),
        };
        Cell::new_cube(self.q + direction.q, self.r + direction.r, self.s + direction.s)
    }
}

/// Whether `cell` is a hexagon of the cube system: `q + r + s == 0`.
pub open spec fn is_cube(cell: Cell) -> bool {
    cell.q + cell.r + cell.s == 0
}

/// The distance from `a` to `b` is the distance from `b` to `a`.
pub proof fn lemma_distance_symmetric(a: Cell, b: Cell)
    ensures
        spec_distance(a, b) == spec_distance(b, a),
{
    lemma_cube_distance_symmetric(a.q - b.q, a.r - b.r, a.s - b.s);
}

/// Two hexagons of the cube system are at distance 0 exactly when they are the same.
pub proof fn lemma_distance_zero(a: Cell, b: Cell)
    requires
        is_cube(a),
        is_cube(b),
    ensures
        spec_distance(a, b) == 0 <==> a == b,
{
    lemma_cube_distance_zero(a.q - b.q, a.r - b.r, a.s - b.s);
}

/// The distance of hexagons of the cube system obeys the triangle inequality.
pub proof fn lemma_distance_triangle(a: Cell, b: Cell, c: Cell)
    requires
        is_cube(a),
        is_cube(b),
        is_cube(c),
    ensures
        spec_distance(a, c) <= spec_distance(a, b) + spec_distance(b, c),
{
    lemma_cube_triangle(a.q - b.q, a.r - b.r, a.s - b.s, b.q - c.q, b.r - c.r, b.s - c.s);
}

/// The neighbour in any direction is at distance 1, and the opposite
/// direction leads back.
pub proof fn lemma_neighbour_step(cell: Cell, direction: Direction)
    requires
        is_inner(cell),
    ensures
        spec_distance(cell, spec_neighbour(cell, direction)) == 1,
        spec_neighbour(spec_neighbour(cell, direction), opposite(direction)) == cell,
        is_cube(cell) ==> is_cube(spec_neighbour(cell, direction)),
{
}

} // verus!
