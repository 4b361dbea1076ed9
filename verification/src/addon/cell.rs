use vstd::prelude::*;
use crate::addon::names::name_is;
use crate::components::cube::{
    cube_distance, distance_fits, distance_from_differences, lemma_cube_distance_symmetric,
    lemma_cube_distance_zero, lemma_cube_triangle,
};

verus! {

/// The direction numbers of the neighbours of a hexagon on a tile map.
pub struct Direction;

impl Direction {
    pub const TOP: i8 = 0;
    pub const TOP_RIGHT: i8 = 1;
    pub const RIGHT: i8 = 2;
    pub const BOTTOM_RIGHT: i8 = 3;
    pub const BOTTOM: i8 = 4;
    pub const BOTTOM_LEFT: i8 = 5;
    pub const LEFT: i8 = 6;
    pub const TOP_LEFT: i8 = 7;
}

/// The neighbour directions of a hexagon with a pointy top.
#[derive(Clone, Copy, Debug, PartialEq, Eq, Hash, Structural)]
pub enum DirectionPointy {
    TopRight,
    Right,
    BottomRight,
    BottomLeft,
    Left,
    TopLeft,
}

/// The neighbour directions of a hexagon with a flat top.
#[derive(Clone, Copy, Debug, PartialEq, Eq, Hash, Structural)]
pub enum DirectionFlat {
    Top,
    TopRight,
    BottomRight,
    Bottom,
    BottomLeft,
    TopLeft,
}

/// The direction number of a pointy-top direction.
pub open spec fn pointy_number(direction: DirectionPointy) -> i8 {
    match direction {
        DirectionPointy::TopRight => 1,
        DirectionPointy::Right => 2,
        DirectionPointy::BottomRight => 3,
        DirectionPointy::BottomLeft => 5,
        DirectionPointy::Left => 6,
        DirectionPointy::TopLeft => 7,
    }
}

/// The direction number of a flat-top direction.
pub open spec fn flat_number(direction: DirectionFlat) -> i8 {
    match direction {
        DirectionFlat::Top => 0,
        DirectionFlat::TopRight => 1,
        DirectionFlat::BottomRight => 3,
        DirectionFlat::Bottom => 4,
        DirectionFlat::BottomLeft => 5,
        DirectionFlat::TopLeft => 7,
    }
}

/// The pointy-top direction with number `value`, if any.
pub open spec fn spec_pointy_direction(value: i8) -> Option<DirectionPointy> {
    if value == 1 {
        Some(DirectionPointy::TopRight)
    } else if value == 2 {
        Some(DirectionPointy::Right)
    } else if value == 3 {
        Some(DirectionPointy::BottomRight)
    } else if value == 5 {
        Some(DirectionPointy::BottomLeft)
    } else if value == 6 {
        Some(DirectionPointy::Left)
    } else if value == 7 {
        Some(DirectionPointy::TopLeft)
    } else {
        None
    }
}

/// The flat-top direction with number `value`, if any.
pub open spec fn spec_flat_direction(value: i8) -> Option<DirectionFlat> {
    if value == 0 {
        Some(DirectionFlat::Top)
    } else if value == 1 {
        Some(DirectionFlat::TopRight)
    } else if value == 3 {
        Some(DirectionFlat::BottomRight)
    } else if value == 4 {
        Some(DirectionFlat::Bottom)
    } else if value == 5 {
        Some(DirectionFlat::BottomLeft)
    } else if value == 7 {
        Some(DirectionFlat::TopLeft)
    } else {
        None
    }
}

impl DirectionPointy {
    /// The direction with number `value`, if a pointy-top hexagon has one.
    pub fn from_i8(value: i8) -> (direction: Option<DirectionPointy>)
        ensures
            direction == spec_pointy_direction(value),
            direction matches Some(d) ==> pointy_number(d) == value,
            direction is None ==> forall|d: DirectionPointy| pointy_number(d) != value,
    {
        if value == Direction::TOP_RIGHT {
            Some(DirectionPointy::TopRight)
        } else if value == Direction::RIGHT {
            Some(DirectionPointy::Right)
        } else if value == Direction::BOTTOM_RIGHT {
            Some(DirectionPointy::BottomRight)
        } else if value == Direction::BOTTOM_LEFT {
            Some(DirectionPointy::BottomLeft)
        } else if value == Direction::LEFT {
            Some(DirectionPointy::Left)
        } else if value == Direction::TOP_LEFT {
            Some(DirectionPointy::TopLeft)
        } else {
            None
        }
    }

    /// The direction number of this direction.
    pub fn to_i8(&self) -> (value: i8)
        ensures
            value == pointy_number(*self),
    {
        match self {
            DirectionPointy::TopRight => Direction::TOP_RIGHT,
            DirectionPointy::Right => Direction::RIGHT,
            DirectionPointy::BottomRight => Direction::BOTTOM_RIGHT,
            DirectionPointy::BottomLeft => Direction::BOTTOM_LEFT,
            DirectionPointy::Left => Direction::LEFT,
            DirectionPointy::TopLeft => Direction::TOP_LEFT,
        }
    }
}

impl DirectionFlat {
    /// The direction with number `value`, if a flat-top hexagon has one.
    pub fn from_i8(value: i8) -> (direction: Option<DirectionFlat>)
        ensures
            direction == spec_flat_direction(value),
            direction matches Some(d) ==> flat_number(d) == value,
            direction is None ==> forall|d: DirectionFlat| flat_number(d) != value,
    {
        if value == Direction::TOP {
            Some(DirectionFlat::Top)
        } else if value == Direction::TOP_RIGHT {
            Some(DirectionFlat::TopRight)
        } else if value == Direction::BOTTOM_RIGHT {
            Some(DirectionFlat::BottomRight)
        } else if value == Direction::BOTTOM {
            Some(DirectionFlat::Bottom)
        } else if value == Direction::BOTTOM_LEFT {
            Some(DirectionFlat::BottomLeft)
        } else if value == Direction::TOP_LEFT {
            Some(DirectionFlat::TopLeft)
        } else {
            None
        }
    }

    /// The direction number of this direction.
    pub fn to_i8(&self) -> (value: i8)
        ensures
            value == flat_number(*self),
    {
        match self {
            DirectionFlat::Top => Direction::TOP,
            DirectionFlat::TopRight => Direction::TOP_RIGHT,
            DirectionFlat::BottomRight => Direction::BOTTOM_RIGHT,
            DirectionFlat::Bottom => Direction::BOTTOM,
            DirectionFlat::BottomLeft => Direction::BOTTOM_LEFT,
            DirectionFlat::TopLeft => Direction::TOP_LEFT,
        }
    }
}

/// A pair of integer coordinates: a column `x` and a row `y` on a tile map.
#[derive(Clone, Copy, Debug, PartialEq, Eq, Hash, Structural)]
pub struct Vector2i {
    pub x: i32,
    pub y: i32,
}

impl Vector2i {
    pub fn new(x: i32, y: i32) -> (vector: Vector2i)
        ensures
            vector == (Vector2i { x, y }),
    {
        Vector2i { x, y }
    }
}

/// A hexagon of the map in axial coordinates `q` and `r`; its third cube
/// coordinate is `s == -q - r`.
#[derive(Clone, Copy, Debug, Hash, PartialEq, Eq, Structural)]
pub struct Cell {
    pub q: i32,
    pub r: i32,
}

/// The third cube coordinate of `cell`.
pub open spec fn spec_s(cell: Cell) -> int {
    -cell.q - cell.r
}

/// Whether the third cube coordinate of `cell` is an `i32`.
pub open spec fn s_fits(cell: Cell) -> bool {
    cell.q != i32::MIN && i32::MIN <= -cell.q - cell.r <= i32::MAX
}

/// The distance of two hexagons.
pub open spec fn spec_distance(a: Cell, b: Cell) -> int {
    cube_distance(a.q - b.q, a.r - b.r, spec_s(a) - spec_s(b))
}

/// Whether the distance of `a` and `b` can be computed in `i32` arithmetic.
pub open spec fn cells_distance_fits(a: Cell, b: Cell) -> bool {
    &&& s_fits(a)
    &&& s_fits(b)
    &&& distance_fits(a.q - b.q, a.r - b.r, spec_s(a) - spec_s(b))
}

/// `n / 2` rounded toward zero, as integer division of Rust does.
pub open spec fn half_toward_zero(n: int) -> int {
    if n >= 0 {
        n / 2
    } else {
        -((-n) / 2)
    }
}

/// `n + (n & 1)`: `n` rounded up to an even number.
pub open spec fn round_up_even(n: int) -> int {
    n + n % 2
}

/// The even-q offset coordinates of `cell`: its column is `q`, its row is `r`
/// plus half of `q` rounded up to even.
pub open spec fn spec_even_q(cell: Cell) -> Vector2i {
    Vector2i { x: cell.q, y: (cell.r + round_up_even(cell.q as int) / 2) as i32 }
}

/// The hexagon at even-q offset coordinates `offset`.
pub open spec fn spec_from_even_q(offset: Vector2i) -> Cell {
    Cell { q: offset.x, r: (offset.y - round_up_even(offset.x as int) / 2) as i32 }
}

/// The even-r offset coordinates of `cell`: its column is `q` plus half of
/// `r` rounded up to even, its row is `r`.
pub open spec fn spec_even_r(cell: Cell) -> Vector2i {
    Vector2i { x: (cell.q + round_up_even(cell.r as int) / 2) as i32, y: cell.r }
}

/// The hexagon at even-r offset coordinates `offset`: its `q` is the column
/// less half of the row plus the parity of the column, `r` is the row.
pub open spec fn spec_from_even_r(offset: Vector2i) -> Cell {
    Cell {
        q: (offset.x - half_toward_zero(offset.y + (offset.x as int) % 2)) as i32,
        r: offset.y,
    }
}

/// `n & 1` is the parity of `n`.
proof fn lemma_parity(n: i32)
    ensures
        (n & 1) as int == (n as int) % 2,
{
    assert((n & 1) == 0 || (n & 1) == 1) by (bit_vector);
    assert(n == 2 * (n >> 1) + (n & 1)) by (bit_vector);
}

/// The offset of one step in a pointy-top direction, as `(q, r)`.
pub open spec fn pointy_offset(direction: DirectionPointy) -> (int, int) {
    match direction {
        DirectionPointy::TopRight => (1, -1),
        DirectionPointy::Right => (1, 0),
        DirectionPointy::BottomRight => (0, 1),
        DirectionPointy::BottomLeft => (-1, 1),
        DirectionPointy::Left => (-1, 0),
        DirectionPointy::TopLeft => (0, -1),
    }
}

/// The offset of one step in a flat-top direction, as `(q, r)`.
pub open spec fn flat_offset(direction: DirectionFlat) -> (int, int) {
    match direction {
        DirectionFlat::Top => (0, -1),
        DirectionFlat::TopRight => (1, -1),
        DirectionFlat::BottomRight => (1, 0),
        DirectionFlat::Bottom => (0, 1),
        DirectionFlat::BottomLeft => (-1, 1),
        DirectionFlat::TopLeft => (-1, 0),
    }
}

/// Whether no axial coordinate of `cell` is at the edge of the `i32` range.
pub open spec fn is_inner(cell: Cell) -> bool {
    i32::MIN < cell.q < i32::MAX && i32::MIN < cell.r < i32::MAX
}

/// The neighbour of a pointy-top hexagon in `direction`.
pub open spec fn spec_pointy_neighbour(cell: Cell, direction: DirectionPointy) -> Cell {
    Cell { q: (cell.q + pointy_offset(direction).0) as i32, r: (cell.r + pointy_offset(direction).1) as i32 }
}

/// The neighbour of a flat-top hexagon in `direction`.
pub open spec fn spec_flat_neighbour(cell: Cell, direction: DirectionFlat) -> Cell {
    Cell { q: (cell.q + flat_offset(direction).0) as i32, r: (cell.r + flat_offset(direction).1) as i32 }
}

impl Cell {
    /// The hexagon at the origin.
    pub fn zero() -> (cell: Cell)
        ensures
            cell == (Cell { q: 0, r: 0 }),
    {
        Cell { q: 0, r: 0 }
    }

    /// Creates a position from axial coordinates.
    pub fn new_axial(q: i32, r: i32) -> (cell: Cell)
        ensures
            cell == (Cell { q, r }),
    {
        Cell { q, r }
    }

    /// The even-q offset coordinates of this hexagon.
    pub fn get_even_q_offset_coordinates(&self) -> (offset: Vector2i)
        requires
            self.q < i32::MAX || self.q % 2 == 0,
            i32::MIN <= self.r + round_up_even(self.q as int) / 2 <= i32::MAX,
        ensures
            offset == spec_even_q(*self),
    {
        proof {
            lemma_parity(self.q);
        }
        let col = self.q;
        let row = self.r + (self.q + (self.q & 1)) / 2;
        Vector2i::new(col, row)
    }

    /// The hexagon at even-q offset coordinates `offset_coords`.
    pub fn from_even_q_offset_coordinates(offset_coords: Vector2i) -> (cell: Cell)
        requires
            offset_coords.x < i32::MAX || offset_coords.x % 2 == 0,
            i32::MIN <= offset_coords.y - round_up_even(offset_coords.x as int) / 2 <= i32::MAX,
        ensures
            cell == spec_from_even_q(offset_coords),
    {
        proof {
            lemma_parity(offset_coords.x);
        }
        let q = offset_coords.x;
        let r = offset_coords.y - (offset_coords.x + (offset_coords.x & 1)) / 2;
        Self::new_axial(q, r)
    }

    /// The even-r offset coordinates of this hexagon.
    pub fn get_even_r_offset_coordinates(&self) -> (offset: Vector2i)
        requires
            self.r < i32::MAX || self.r % 2 == 0,
            i32::MIN <= self.q + round_up_even(self.r as int) / 2 <= i32::MAX,
        ensures
            offset == spec_even_r(*self),
    {
        proof {
            lemma_parity(self.r);
        }
        let col = self.q + (self.r + (self.r & 1)) / 2;
        let row = self.r;
        Vector2i::new(col, row)
    }

    /// The hexagon at even-r offset coordinates `offset_coords`.
    pub fn from_even_r_offset_coordinates(offset_coords: Vector2i) -> (cell: Cell)
        requires
            offset_coords.y < i32::MAX || offset_coords.x % 2 == 0,
            i32::MIN <= offset_coords.x - half_toward_zero(offset_coords.y + (offset_coords.x as int) % 2)
                <= i32::MAX,
        ensures
            cell == spec_from_even_r(offset_coords),
    {
        proof {
            lemma_parity(offset_coords.x);
        }
        let q = offset_coords.x - (offset_coords.y + (offset_coords.x & 1)) / 2;
        let r = offset_coords.y;
        Self::new_axial(q, r)
    }

    /// Moves along the `q` axis, keeping `s`.
    pub fn move_q(&self, length: i32) -> (cell: Cell)
        requires
            i32::MIN <= self.q + length <= i32::MAX,
            i32::MIN <= self.r - length <= i32::MAX,
        ensures
            cell == (Cell { q: (self.q + length) as i32, r: (self.r - length) as i32 }),
    {
        Self::new_axial(self.q + length, self.r - length)
    }

    /// Moves along the `r` axis, keeping `q`.
    pub fn move_r(&self, length: i32) -> (cell: Cell)
        requires
            i32::MIN <= self.r + length <= i32::MAX,
        ensures
            cell == (Cell { q: self.q, r: (self.r + length) as i32 }),
    {
        Self::new_axial(self.q, self.r + length)
    }

    /// Moves along the `s` axis, keeping `r`.
    pub fn move_s(&self, length: i32) -> (cell: Cell)
        requires
            i32::MIN <= self.q - length <= i32::MAX,
        ensures
            cell == (Cell { q: (self.q - length) as i32, r: self.r }),
    {
        Self::new_axial(self.q - length, self.r)
    }

    pub fn get_q(&self) -> (q: i32)
        ensures
            q == self.q,
    {
        self.q
    }

    pub fn get_r(&self) -> (r: i32)
        ensures
            r == self.r,
    {
        self.r
    }

    /// The third cube coordinate, `-q - r`.
    pub fn get_s(&self) -> (s: i32)
        requires
            s_fits(*self),
        ensures
            s == spec_s(*self),
    {
        crate::components::cell::calculate_axis(self.q, self.r)
    }

    /// The number of steps from this hexagon to `other`.
    pub fn distance_to(&self, other: &Cell) -> (distance: i32)
        requires
            cells_distance_fits(*self, *other),
        ensures
            distance == spec_distance(*self, *other),
    {
        distance_from_differences(self.q - other.q, self.r - other.r, self.get_s() - other.get_s())
    }

    /// Whether `other` is one step away.
    pub fn is_neighbour(&self, other: &Cell) -> (result: bool)
        requires
            cells_distance_fits(*self, *other),
        ensures
            result == (spec_distance(*self, *other) == 1),
    {
        self.distance_to(other) == 1
    }

    /// The neighbour of a pointy-top hexagon in `direction`.
    pub fn get_neighbour_for_pointy_hex(&self, direction: DirectionPointy) -> (cell: Cell)
        requires
            is_inner(*self),
        ensures
            cell == spec_pointy_neighbour(*self, direction),
    {
        let direction = match direction {
            DirectionPointy::TopRight => Cell::new_axial(1, -1),
            DirectionPointy::Right => Cell::new_axial(1, 0),
            DirectionPointy::BottomRight => Cell::new_axial(0, 1),
            DirectionPointy::BottomLeft => Cell::new_axial(-1, 1),
            DirectionPointy::Left => Cell::new_axial(-1, 0),
            DirectionPointy::TopLeft => Cell::new_axial(0, -1),
        };
        Cell::new_axial(self.q + direction.q, self.r + direction.r)
    }

    /// The neighbour of a flat-top hexagon in `direction`.
    pub fn get_neighbour_for_flat_hex(&self, direction: DirectionFlat) -> (cell: Cell)
        requires
            is_inner(*self),
        ensures
            cell == spec_flat_neighbour(*self, direction),
    {
        let direction = match direction {
            DirectionFlat::Top => Cell::new_axial(0, -1),
            DirectionFlat::TopRight => Cell::new_axial(1, -1),
            DirectionFlat::BottomRight => Cell::new_axial(1, 0),
            DirectionFlat::Bottom => Cell::new_axial(0, 1),
            DirectionFlat::BottomLeft => Cell::new_axial(-1, 1),
            DirectionFlat::TopLeft => Cell::new_axial(-1, 0),
        };
        Cell::new_axial(self.q + direction.q, self.r + direction.r)
    }

    /// The property `property`: `Q`, `R`, or the derived `S`; `None` for any other name.
    pub fn get_property(&self, property: &str) -> (value: Option<i32>)
        requires
            property@ == "S"@ ==> s_fits(*self),
        ensures
            value == (if property@ == "Q"@ {
                Some(self.q)
            } else if property@ == "R"@ {
                Some(self.r)
            } else if property@ == "S"@ {
                Some(spec_s(*self) as i32)
            } else {
                None::<i32>
            }),
    {
        if name_is(property, "Q") {
            Some(self.q)
        } else if name_is(property, "R") {
            Some(self.r)
        } else if name_is(property, "S") {
            Some(self.get_s())
        } else {
            None
        }
    }

    /// Sets `Q` or `R` to `value`; whether the property was one of them.
    pub fn set_property(&mut self, property: &str, value: i32) -> (accepted: bool)
        ensures
            accepted == (property@ == "Q"@ || property@ == "R"@),
            *final(self) == (if property@ == "Q"@ {
                Cell { q: value, r: old(self).r }
            } else if property@ == "R"@ {
                Cell { q: old(self).q, r: value }
            } else {
                *old(self)
            }),
    {
        if name_is(property, "Q") {
            self.q = value;
            true
        } else if name_is(property, "R") {
            self.r = value;
            true
        } else {
            false
        }
    }

    /// Whether `other` is the same hexagon.
    pub fn equals(&self, other: &Cell) -> (result: bool)
        ensures
            result == (*self == *other),
    {
        *self == *other
    }
}

/// Going to even-q offset coordinates and back gives the same hexagon.
pub proof fn lemma_even_q_round_trip(cell: Cell)
    requires
        cell.q < i32::MAX || cell.q % 2 == 0,
        i32::MIN <= cell.r + round_up_even(cell.q as int) / 2 <= i32::MAX,
    ensures
        spec_from_even_q(spec_even_q(cell)) == cell,
{
}

/// Going from even-q offset coordinates to a hexagon and back gives the same coordinates.
pub proof fn lemma_from_even_q_round_trip(offset: Vector2i)
    requires
        offset.x < i32::MAX || offset.x % 2 == 0,
        i32::MIN <= offset.y - round_up_even(offset.x as int) / 2 <= i32::MAX,
    ensures
        spec_even_q(spec_from_even_q(offset)) == offset,
{
}

/// Going to even-r offset coordinates and back gives the same hexagon when
/// the column found has the parity of the row.
pub proof fn lemma_even_r_round_trip(cell: Cell)
    requires
        cell.r < i32::MAX || cell.r % 2 == 0,
        i32::MIN <= cell.q + round_up_even(cell.r as int) / 2 <= i32::MAX,
        (cell.q + round_up_even(cell.r as int) / 2) % 2 == (cell.r as int) % 2,
    ensures
        spec_from_even_r(spec_even_r(cell)) == cell,
{
}

/// The distance from `a` to `b` is the distance from `b` to `a`.
pub proof fn lemma_distance_symmetric(a: Cell, b: Cell)
    ensures
        spec_distance(a, b) == spec_distance(b, a),
{
    lemma_cube_distance_symmetric(a.q - b.q, a.r - b.r, spec_s(a) - spec_s(b));
}

/// Two hexagons are at distance 0 exactly when they are the same.
pub proof fn lemma_distance_zero(a: Cell, b: Cell)
    ensures
        spec_distance(a, b) == 0 <==> a == b,
{
    lemma_cube_distance_zero(a.q - b.q, a.r - b.r, spec_s(a) - spec_s(b));
}

/// The distance obeys the triangle inequality.
pub proof fn lemma_distance_triangle(a: Cell, b: Cell, c: Cell)
    ensures
        spec_distance(a, c) <= spec_distance(a, b) + spec_distance(b, c),
{
    lemma_cube_triangle(
        a.q - b.q,
        a.r - b.r,
        spec_s(a) - spec_s(b),
        b.q - c.q,
        b.r - c.r,
        spec_s(b) - spec_s(c),
    );
}

/// Every neighbour, pointy-top or flat-top, is at distance 1.
pub proof fn lemma_neighbours_at_distance_one(cell: Cell, pointy: DirectionPointy, flat: DirectionFlat)
    requires
        is_inner(cell),
    ensures
        spec_distance(cell, spec_pointy_neighbour(cell, pointy)) == 1,
        spec_distance(cell, spec_flat_neighbour(cell, flat)) == 1,
{
}

/// The even-q offset coordinates keep the column `q`, and the row is `r`
/// plus half of `q` rounded up to the next even number: twice the shift of
/// the row is `q` when `q` is even and `q + 1` when it is odd.
pub proof fn lemma_even_q_columns(cell: Cell)
    requires
        i32::MIN <= cell.r + round_up_even(cell.q as int) / 2 <= i32::MAX,
    ensures
        spec_even_q(cell).x == cell.q,
        cell.q % 2 == 0 ==> 2 * (spec_even_q(cell).y - cell.r) == cell.q,
        cell.q % 2 != 0 ==> 2 * (spec_even_q(cell).y - cell.r) == cell.q + 1,
{
}

/// The hexagon at even-q offset coordinates keeps the column as `q`, and its
/// `r` is the row less half of the column rounded up to the next even number.
pub proof fn lemma_from_even_q_rows(offset: Vector2i)
    requires
        i32::MIN <= offset.y - round_up_even(offset.x as int) / 2 <= i32::MAX,
    ensures
        spec_from_even_q(offset).q == offset.x,
        offset.x % 2 == 0 ==> 2 * (offset.y - spec_from_even_q(offset).r) == offset.x,
        offset.x % 2 != 0 ==> 2 * (offset.y - spec_from_even_q(offset).r) == offset.x + 1,
{
}

/// The even-r offset coordinates keep the row `r`, and the column is `q`
/// plus half of `r` rounded up to the next even number: twice the shift of
/// the column is `r` when `r` is even and `r + 1` when it is odd.
pub proof fn lemma_even_r_rows(cell: Cell)
    requires
        i32::MIN <= cell.q + round_up_even(cell.r as int) / 2 <= i32::MAX,
    ensures
        spec_even_r(cell).y == cell.r,
        cell.r % 2 == 0 ==> 2 * (spec_even_r(cell).x - cell.q) == cell.r,
        cell.r % 2 != 0 ==> 2 * (spec_even_r(cell).x - cell.q) == cell.r + 1,
{
}

/// The hexagon at even-r offset coordinates keeps the row as `r`, and its `q`
/// is the column less half of the row plus the parity of the column, halved
/// toward zero.
pub proof fn lemma_from_even_r_columns(offset: Vector2i)
    requires
        i32::MIN <= offset.x - half_toward_zero(offset.y + (offset.x as int) % 2) <= i32::MAX,
    ensures
        spec_from_even_r(offset).r == offset.y,
        ({
            let n = offset.y + (offset.x as int) % 2;
            let shift = offset.x - spec_from_even_r(offset).q;
            &&& n % 2 == 0 ==> 2 * shift == n
            &&& n % 2 != 0 && n > 0 ==> 2 * shift == n - 1
            &&& n % 2 != 0 && n < 0 ==> 2 * shift == n + 1
        }),
{
}

} // verus!
