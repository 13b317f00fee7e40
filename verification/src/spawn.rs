//! Spawn placement: picking a walkable tile for an actor to start on.

use vstd::prelude::*;
use crate::grid::TileKind;
use crate::grid::TileMap;
use crate::movement::Position;
use crate::random::RandomSource;

verus! {

/// Why no spawn tile could be produced.
#[derive(Clone, Copy, PartialEq, Eq, Structural, Debug)]
pub enum SpawnError {
    /// The map holds no `Floor` tile at all; world setup cannot go on.
    NoValidSpawn,
}

/// Picks a spawn coordinate uniformly among all `Floor` tiles of the map.
/// Returns a position whose tile is `Floor`, or `NoValidSpawn` exactly when
/// the map has no `Floor` tile.  Nothing is marked occupied: two calls may
/// well return the same coordinate.
pub fn pick_floor_tile(map: &TileMap, rng: &mut RandomSource) -> (r: Result<Position, SpawnError>)
    requires
        map.wf(),
    ensures
        (match r {
            Ok(p) => map@.contains_key((p.x, p.y)) && map@[(p.x, p.y)] == TileKind::Floor,
            Err(e) => e == SpawnError::NoValidSpawn && forall|q: (i32, i32)| #[trigger]
                map@.contains_key(q) ==> map@[q] != TileKind::Floor,
        }),
{
    let floors = map.floor_positions();
    if floors.len() == 0 {
        proof {
            assert forall|q: (i32, i32)| #[trigger]
                map@.contains_key(q) implies map@[q] != TileKind::Floor by {
                if map@[q] == TileKind::Floor {
                    assert(floors@.contains(q));
                }
            }
        }
        Err(SpawnError::NoValidSpawn)
    } else {
        let idx = rng.below(floors.len() as u64) as usize;
        let (x, y) = floors[idx];
        proof {
            assert(floors@[idx as int] == (x, y));
            assert(map@.contains_key(floors@[idx as int]));
        }
        Ok(Position { x, y })
    }
}

} // verus!
