//! Neighbouring cells of the grid.

use vstd::prelude::*;

use crate::config::{GRID_HEIGHT, GRID_WIDTH};
use crate::rng::random_index;

verus! {

/// Number of directions a neighbouring cell can lie in.
pub const DIRECTION_COUNT: usize = 8;

/// The offset `(dx, dy)` of direction `d`: the eight neighbours in the order
/// (-1,-1), (-1,0), (-1,1), (0,-1), (0,1), (1,-1), (1,0), (1,1).
pub open spec fn direction(d: int) -> (int, int) {
    if d == 0 {
        (-1, -1)
    } else if d == 1 {
        (-1, 0)
    } else if d == 2 {
        (-1, 1)
    } else if d == 3 {
        (0, -1)
    } else if d == 4 {
        (0, 1)
    } else if d == 5 {
        (1, -1)
    } else if d == 6 {
        (1, 0)
    } else {
        (1, 1)
    }
}

/// `v + delta`, held to the range of `u16`.
pub open spec fn saturating_add_signed_spec(v: u16, delta: int) -> u16 {
    if v + delta < 0 {
        0
    } else if v + delta > u16::MAX {
        u16::MAX
    } else {
        (v + delta) as u16
    }
}

/// `v`, or `bound - 1` where `v` is not below `bound`.
pub open spec fn clamp_below(v: u16, bound: u16) -> u16 {
    if v >= bound {
        (bound - 1) as u16
    } else {
        v
    }
}

/// The cell one step from `(x, y)` in direction `d`, kept inside the grid on the
/// far sides and at 0 on the near sides.
pub open spec fn neighbour_spec(x: u16, y: u16, d: int) -> (u16, u16) {
    (
        clamp_below(saturating_add_signed_spec(x, direction(d).0), GRID_WIDTH),
        clamp_below(saturating_add_signed_spec(y, direction(d).1), GRID_HEIGHT),
    )
}

/// `(x, y)` lies inside the grid.
pub open spec fn in_grid(x: u16, y: u16) -> bool {
    x < GRID_WIDTH && y < GRID_HEIGHT
}

/// `u16::saturating_add_signed`: `v + delta`, held to the range of `u16`.
pub fn saturating_add_signed(v: u16, delta: i16) -> (r: u16)
    ensures
        r == saturating_add_signed_spec(v, delta as int),
{
    let s: i32 = v as i32 + delta as i32;
    if s < 0 {
        0
    } else if s > 65535 {
        65535
    } else {
        s as u16
    }
}

/// The offset of direction `d`.
fn direction_offset(d: usize) -> (r: (i8, i8))
    requires
        d < DIRECTION_COUNT,
    ensures
        r.0 as int == direction(d as int).0,
        r.1 as int == direction(d as int).1,
{
    if d == 0 {
        (-1, -1)
    } else if d == 1 {
        (-1, 0)
    } else if d == 2 {
        (-1, 1)
    } else if d == 3 {
        (0, -1)
    } else if d == 4 {
        (0, 1)
    } else if d == 5 {
        (1, -1)
    } else if d == 6 {
        (1, 0)
    } else {
        (1, 1)
    }
}

/// The cell one step from `(x, y)` in direction `d` (see `neighbour_spec`).
pub fn neighbour(x: u16, y: u16, d: usize) -> (r: (u16, u16))
    requires
        d < DIRECTION_COUNT,
    ensures
        r == neighbour_spec(x, y, d as int),
        in_grid(r.0, r.1),
{
    let direction = direction_offset(d);
    let nx: u16 = saturating_add_signed(x, direction.0 as i16);
    let ny: u16 = saturating_add_signed(y, direction.1 as i16);
    (if nx >= GRID_WIDTH {
        GRID_WIDTH - 1
    } else {
        nx
    }, if ny >= GRID_HEIGHT {
        GRID_HEIGHT - 1
    } else {
        ny
    })
}

/// A neighbouring cell of `(x, y)`, in a direction drawn at random.
pub fn get_around(x: u16, y: u16) -> (r: (u16, u16))
    ensures
        exists|d: int| 0 <= d < DIRECTION_COUNT && r == #[trigger] neighbour_spec(x, y, d),
        in_grid(r.0, r.1),
{
    let d = random_index(DIRECTION_COUNT);
    neighbour(x, y, d)
}

} // verus!
