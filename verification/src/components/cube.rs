use vstd::prelude::*;

verus! {

/// The distance of two hexagons given by the differences of their three cube
/// coordinates: half the sum of the absolute differences.
pub open spec fn cube_distance(dq: int, dr: int, ds: int) -> int {
    (abs(dq) + abs(dr) + abs(ds)) / 2
}

/// The absolute value of an integer.
pub open spec fn abs(x: int) -> int {
    if x < 0 {
        -x
    } else {
        x
    }
}

/// Whether the distance of two hexagons with these coordinate differences can
/// be computed in `i32` arithmetic.
pub open spec fn distance_fits(dq: int, dr: int, ds: int) -> bool {
    &&& i32::MIN < dq <= i32::MAX
    &&& i32::MIN < dr <= i32::MAX
    &&& i32::MIN < ds <= i32::MAX
    &&& abs(dq) + abs(dr) + abs(ds) <= i32::MAX
}

/// The absolute value of `x`, which is not `i32::MIN`.
pub fn abs_i32(x: i32) -> (result: i32)
    requires
        x != i32::MIN,
    ensures
        result == abs(x as int),
{
    if x < 0 {
        -x
    } else {
        x
    }
}

/// Half the sum of the absolute values of three coordinate differences.
pub fn distance_from_differences(dq: i32, dr: i32, ds: i32) -> (result: i32)
    requires
        distance_fits(dq as int, dr as int, ds as int),
    ensures
        result == cube_distance(dq as int, dr as int, ds as int),
{
    (abs_i32(dq) + abs_i32(dr) + abs_i32(ds)) / 2
}

} // verus!

verus! {

/// The distance is the same in both directions: negating the differences keeps it.
pub proof fn lemma_cube_distance_symmetric(dq: int, dr: int, ds: int)
    ensures
        cube_distance(dq, dr, ds) == cube_distance(-dq, -dr, -ds),
{
}

/// For differences of two hexagons with `q + r + s == 0`, the distance is 0
/// exactly when all differences are 0.
pub proof fn lemma_cube_distance_zero(dq: int, dr: int, ds: int)
    requires
        dq + dr + ds == 0,
    ensures
        cube_distance(dq, dr, ds) == 0 <==> (dq == 0 && dr == 0 && ds == 0),
{
}

/// For hexagons with `q + r + s == 0`, going over a third hexagon is never shorter.
pub proof fn lemma_cube_triangle(aq: int, ar: int, a_s: int, bq: int, br: int, bs: int)
    requires
        aq + ar + a_s == 0,
        bq + br + bs == 0,
    ensures
        cube_distance(aq + bq, ar + br, a_s + bs) <= cube_distance(aq, ar, a_s) + cube_distance(
            bq,
            br,
            bs,
        ),
{
}

} // verus!
