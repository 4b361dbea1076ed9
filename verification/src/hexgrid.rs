//! The grid of hexagon fields around the origin.
use vstd::prelude::*;
use crate::components::cube::cube_distance;
use crate::components::position::{Position, position_distance};

verus! {

/// The grid node: its radius, and the scene each field is made from, by id.
#[derive(Clone, Copy, Debug, PartialEq, Eq, Structural)]
pub struct HexGrid {
    pub radius: i32,
    pub hexagon_prefab: Option<i64>,
}

/// Whether the position with axial coordinates `q`, `r` gets a field: it is
/// at most 4 steps from the origin.
pub open spec fn gets_field(q: int, r: int) -> bool {
    cube_distance(q, r, -q - r) <= 4
}

/// The fields of the row `q`, for `r` from `-radius` on, `count` of them.
pub open spec fn row_fields(q: int, radius: int, count: nat) -> Seq<Position>
    decreases count,
{
    if count == 0 {
        Seq::empty()
    } else {
        let r = -radius + count - 1;
        row_fields(q, radius, (count - 1) as nat) + if gets_field(q, r) {
            seq![Position { q: q as i32, r: r as i32, s: (-q - r) as i32 }]
        } else {
            Seq::empty()
        }
    }
}

/// The fields of the rows `q` from `-radius` on, `count` of them, row after row.
pub open spec fn grid_fields(radius: int, count: nat) -> Seq<Position>
    decreases count,
{
    if count == 0 {
        Seq::empty()
    } else {
        grid_fields(radius, (count - 1) as nat) + row_fields(
            -radius + count - 1,
            radius,
            (2 * radius + 1) as nat,
        )
    }
}

/// The positions of the fields of a grid of `radius`: every axial `q` and `r`
/// from `-radius` to `radius`, `q` in the outer order, that is at most 4
/// steps from the origin.
pub open spec fn spec_hexfield_positions(radius: int) -> Seq<Position> {
    if radius < 0 {
        Seq::empty()
    } else {
        grid_fields(radius, (2 * radius + 1) as nat)
    }
}

impl HexGrid {
    /// A grid of radius 0 without a field scene.
    pub fn new() -> (grid: HexGrid)
        ensures
            grid == (HexGrid { radius: 0, hexagon_prefab: None }),
    {
        HexGrid { radius: 0, hexagon_prefab: None }
    }

    pub fn _get_radius(&self) -> (radius: i32)
        ensures
            radius == self.radius,
    {
        self.radius
    }

    /// Sets the radius; the fields are laid out anew for it.
    pub fn _set_radius(&mut self, value: i32) -> (positions: Option<Vec<Position>>)
        requires
            i32::MIN < value <= 536870911,
        ensures
            final(self).radius == value,
            final(self).hexagon_prefab == old(self).hexagon_prefab,
            old(self).hexagon_prefab is None ==> positions is None,
            old(self).hexagon_prefab is Some ==> (positions matches Some(p) && p@
                == spec_hexfield_positions(value as int)),
    {
        self.radius = value;
        self.update_hexfields()
    }

    /// The positions of the fields to lay out, or `None` when no field scene is set.
    pub fn update_hexfields(&self) -> (positions: Option<Vec<Position>>)
        requires
            i32::MIN < self.radius <= 536870911,
        ensures
            self.hexagon_prefab is None ==> positions is None,
            self.hexagon_prefab is Some ==> (positions matches Some(p) && p@
                == spec_hexfield_positions(self.radius as int)),
    {
        match self.hexagon_prefab {
            None => None,
            Some(_) => Some(hexfield_positions(self.radius)),
        }
    }
}

/// The positions of the fields of a grid of `radius`.
pub fn hexfield_positions(radius: i32) -> (positions: Vec<Position>)
    requires
        i32::MIN < radius <= 536870911,
    ensures
        positions@ == spec_hexfield_positions(radius as int),
{
    let mut positions: Vec<Position> = Vec::new();
    if radius < 0 {
        return positions;
    }
    let mut q: i32 = -radius;
    while q < radius + 1
        invariant
            0 <= radius <= 536870911,
            -radius <= q <= radius + 1,
            positions@ == grid_fields(radius as int, (q + radius) as nat),
        decreases radius + 1 - q,
    {
        let ghost before = positions@;
        let mut r: i32 = -radius;
        while r < radius + 1
            invariant
                0 <= radius <= 536870911,
                -radius <= q <= radius,
                -radius <= r <= radius + 1,
                positions@ == before + row_fields(q as int, radius as int, (r + radius) as nat),
            decreases radius + 1 - r,
        {
            let hex_position = Position::new_axial(q, r);
            let ghost row_before = positions@;
            if hex_position.distance_to(&Position::zero()) <= 4 {
                positions.push(hex_position);
            }
            proof {
                assert(row_fields(q as int, radius as int, (r + 1 + radius) as nat) == row_fields(
                    q as int,
                    radius as int,
                    (r + radius) as nat,
                ) + if gets_field(q as int, r as int) {
                    seq![Position { q: q, r: r, s: (-q - r) as i32 }]
                } else {
                    Seq::<Position>::empty()
                });
                assert(positions@ =~= before + row_fields(q as int, radius as int, (r + 1 + radius) as nat));
            }
            r = r + 1;
        }
        proof {
            assert(grid_fields(radius as int, (q + 1 + radius) as nat) == grid_fields(
                radius as int,
                (q + radius) as nat,
            ) + row_fields(q as int, radius as int, (2 * radius + 1) as nat));
        }
        q = q + 1;
    }
    positions
}

} // verus!
