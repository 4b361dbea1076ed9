use vstd::prelude::*;
use crate::components::cube::{
    cube_distance, distance_fits, distance_from_differences, lemma_cube_distance_symmetric,
    lemma_cube_distance_zero, lemma_cube_triangle,
};

verus! {

/// A hexagon of a given size in cube coordinates `q`, `r` and `s`.
#[derive(Clone, Copy, Debug, PartialEq, Eq, Structural)]
pub struct Hexagon {
    pub q: i32,
    pub r: i32,
    pub s: i32,
    pub size: i32,
}

/// The distance of two hexagons.
pub open spec fn hexagon_distance(a: Hexagon, b: Hexagon) -> int {
    cube_distance(a.q - b.q, a.r - b.r, a.s - b.s)
}

/// Whether the distance of two hexagons can be computed in `i32` arithmetic.
pub open spec fn hexagons_distance_fits(a: Hexagon, b: Hexagon) -> bool {
    distance_fits(a.q - b.q, a.r - b.r, a.s - b.s)
}

impl Hexagon {
    /// The hexagon at the origin, of size 0.
    pub fn zero() -> (hexagon: Hexagon)
        ensures
            hexagon == (Hexagon { q: 0, r: 0, s: 0, size: 0 }),
    {
        Hexagon { q: 0, r: 0, s: 0, size: 0 }
    }

    /// Creates a hexagon from axial coordinates.
    pub fn new_axial(q: i32, r: i32, size: i32) -> (hexagon: Hexagon)
        requires
            r != i32::MIN,
            i32::MIN <= -r - q <= i32::MAX,
        ensures
            hexagon == (Hexagon { q, r, s: (-r - q) as i32, size }),
    {
        let mut hexagon = Hexagon { q, r, s: 0, size };
        hexagon.update_s();
        hexagon
    }

    fn update_s(&mut self)
        requires
            old(self).r != i32::MIN,
            i32::MIN <= -old(self).r - old(self).q <= i32::MAX,
        ensures
            *final(self) == (Hexagon { s: (-old(self).r - old(self).q) as i32, ..*old(self) }),
    {
        self.s = -self.r - self.q;
    }

    /// Creates a hexagon from cube coordinates.
    pub fn new_cube(q: i32, r: i32, s: i32, size: i32) -> (hexagon: Hexagon)
        ensures
            hexagon == (Hexagon { q, r, s, size }),
    {
        Hexagon { q, r, s, size }
    }

    pub fn get_q(&self) -> (q: i32)
        ensures
            q == self.q,
    {
        self.q
    }

    pub fn get_r(&self) -> (r: i32)
        ensures
            r == self.r,
    {
        self.r
    }

    pub fn get_s(&self) -> (s: i32)
        ensures
            s == self.s,
    {
        self.s
    }

    pub fn get_size(&self) -> (size: i32)
        ensures
            size == self.size,
    {
        self.size
    }

    pub fn set_size(&mut self, size: i32)
        ensures
            *final(self) == (Hexagon { size, ..*old(self) }),
    {
        self.size = size
    }

    /// Moves to axial coordinates `q`, `r`, keeping the size.
    pub fn set_axial(&mut self, q: i32, r: i32)
        requires
            r != i32::MIN,
            i32::MIN <= -r - q <= i32::MAX,
        ensures
            *final(self) == (Hexagon { q, r, s: (-r - q) as i32, size: old(self).size }),
    {
        self.q = q;
        self.r = r;
        self.update_s();
    }

    /// Moves to cube coordinates `q`, `r`, `s`, keeping the size.
    pub fn set_cube(&mut self, q: i32, r: i32, s: i32)
        ensures
            *final(self) == (Hexagon { q, r, s, size: old(self).size }),
    {
        self.q = q;
        self.r = r;
        self.s = s;
    }

    /// The number of steps from this hexagon to `other`.
    pub fn distance_to(&self, other: &Hexagon) -> (distance: i32)
        requires
            hexagons_distance_fits(*self, *other),
        ensures
            distance == hexagon_distance(*self, *other),
    {
        distance_from_differences(self.q - other.q, self.r - other.r, self.s - other.s)
    }

    /// Whether `other` is one step away.
    pub fn is_neighbour(&self, other: &Hexagon) -> (result: bool)
        requires
            hexagons_distance_fits(*self, *other),
        ensures
            result == (hexagon_distance(*self, *other) == 1),
    {
        self.distance_to(other) == 1
    }
}

/// The distance from `a` to `b` is the distance from `b` to `a`.
pub proof fn lemma_hexagon_distance_symmetric(a: Hexagon, b: Hexagon)
    ensures
        hexagon_distance(a, b) == hexagon_distance(b, a),
{
    lemma_cube_distance_symmetric(a.q - b.q, a.r - b.r, a.s - b.s);
}

/// Two hexagons with `q + r + s == 0` are at distance 0 exactly when their
/// coordinates agree.
pub proof fn lemma_hexagon_distance_zero(a: Hexagon, b: Hexagon)
    requires
        a.q + a.r + a.s == 0,
        b.q + b.r + b.s == 0,
    ensures
        hexagon_distance(a, b) == 0 <==> (a.q == b.q && a.r == b.r && a.s == b.s),
{
    lemma_cube_distance_zero(a.q - b.q, a.r - b.r, a.s - b.s);
}

/// For hexagons with `q + r + s == 0`, going over a third one is never shorter.
pub proof fn lemma_hexagon_distance_triangle(a: Hexagon, b: Hexagon, c: Hexagon)
    requires
        a.q + a.r + a.s == 0,
        b.q + b.r + b.s == 0,
        c.q + c.r + c.s == 0,
    ensures
        hexagon_distance(a, c) <= hexagon_distance(a, b) + hexagon_distance(b, c),
{
    lemma_cube_triangle(a.q - b.q, a.r - b.r, a.s - b.s, b.q - c.q, b.r - c.r, b.s - c.s);
}

} // verus!

