//! Movement validation: whether a proposed displacement from a current
//! position is legal on a given grid, and the position that results.
//!
//! A move is a single atomic destination check: the candidate coordinate is
//! looked up, and the move is accepted exactly when a `Floor` tile lies
//! there.  An absent tile (out of the generated range, or never set) blocks
//! the move just as a wall does; it is never an error.  A delta with both
//! axes non-zero is checked the same way, as one diagonal step, with no
//! corner-cutting rule.

use vstd::prelude::*;
use crate::grid::TileKind;
use crate::grid::TileMap;

verus! {

/// A coordinate pair owned by one entity.  Mutated only by the movement
/// system; rendering reads it and never writes it.
#[derive(Clone, Copy, PartialEq, Eq, Structural, Debug)]
pub struct Position {
    pub x: i32,
    pub y: i32,
}

/// Combines one tick's direction signals into a displacement.  The signals
/// are independent and not mutually exclusive: each axis is set on its own,
/// so two perpendicular signals make a single diagonal step, and of two
/// opposite signals the later-checked one wins — down over up, right over
/// left.
pub fn compute_delta(up: bool, down: bool, left: bool, right: bool) -> (d: (i32, i32))
    ensures
        d.0 == (if right {
            1i32
        } else if left {
            -1i32
        } else {
            0i32
        }),
        d.1 == (if down {
            -1i32
        } else if up {
            1i32
        } else {
            0i32
        }),
{
    let mut dx: i32 = 0;
    let mut dy: i32 = 0;
    if up {
        dy = 1;
    }
    if down {
        dy = -1;
    }
    if left {
        dx = -1;
    }
    if right {
        dx = 1;
    }
    (dx, dy)
}

/// The coordinate a displacement of `(dx, dy)` from `current` proposes,
/// before validation.
pub open spec fn move_candidate(current: Position, dx: i32, dy: i32) -> (i32, i32) {
    (((current.x + dx) as i32), ((current.y + dy) as i32))
}

/// Decides a proposed move.  Accepted exactly when the candidate coordinate
/// holds a `Floor` tile; then the candidate is the new position.  A `Wall`
/// or an absent tile rejects the move and nothing is returned.
pub fn try_move(map: &TileMap, current: Position, dx: i32, dy: i32) -> (r: Option<Position>)
    requires
        i32::MIN <= current.x + dx <= i32::MAX,
        i32::MIN <= current.y + dy <= i32::MAX,
    ensures
        r == (if map@.contains_key(move_candidate(current, dx, dy)) && map@[move_candidate(
            current,
            dx,
            dy,
        )] == TileKind::Floor {
            Some(Position { x: (current.x + dx) as i32, y: (current.y + dy) as i32 })
        } else {
            None::<Position>
        }),
{
    let nx = current.x + dx;
    let ny = current.y + dy;
    match map.get(nx, ny) {
        Some(TileKind::Floor) => Some(Position { x: nx, y: ny }),
        _ => None,
    }
}

/// Applies a proposed move to a position in place: on acceptance the
/// position becomes the candidate, on rejection it is left unchanged.
pub fn apply_move(map: &TileMap, pos: &mut Position, dx: i32, dy: i32)
    requires
        i32::MIN <= old(pos).x + dx <= i32::MAX,
        i32::MIN <= old(pos).y + dy <= i32::MAX,
    ensures
        *final(pos) == (if map@.contains_key(move_candidate(*old(pos), dx, dy)) && map@[
            move_candidate(*old(pos), dx, dy)
        ] == TileKind::Floor {
            Position { x: (old(pos).x + dx) as i32, y: (old(pos).y + dy) as i32 }
        } else {
            *old(pos)
        }),
{
    match try_move(map, *pos, dx, dy) {
        Some(next) => {
            *pos = next;
        },
        None => {},
    }
}

} // verus!
