//! Procedural generation of the world grid, in three layers: a whole-grid
//! wall fill, a carved rectangular room of floor, and a sparse random
//! scatter of obstruction walls strictly inside the room.  Later layers
//! overwrite only the coordinates they target.
//!
//! No connectivity check follows the scatter: an unlucky draw may fragment
//! the room.  That is the accepted behaviour of this generator, not a defect
//! this module guards against.

use vstd::prelude::*;
use crate::grid::TileKind;
use crate::grid::TileMap;
use crate::random::RandomSource;

verus! {

/// The externally configurable generation constants: grid size, room size,
/// and how many obstruction walls to scatter.
#[derive(Clone, Copy, PartialEq, Eq, Structural, Debug)]
pub struct WorldConfig {
    pub width: i32,
    pub height: i32,
    pub room_width: i32,
    pub room_height: i32,
    pub obstruction_count: u32,
}

/// The one way a configuration is refused.
#[derive(Clone, Copy, PartialEq, Eq, Structural, Debug)]
pub enum ConfigError {
    /// A dimension is non-positive, or the room does not fit in the grid.
    InvalidDimensions,
}

impl WorldConfig {
    /// A usable configuration: positive dimensions, room no larger than the
    /// grid.
    pub open spec fn wf(&self) -> bool {
        &&& 0 < self.width
        &&& 0 < self.height
        &&& 0 < self.room_width <= self.width
        &&& 0 < self.room_height <= self.height
    }

    /// Checks a proposed configuration, refusing exactly those the
    /// generator cannot serve.
    pub fn new(width: i32, height: i32, room_width: i32, room_height: i32, obstruction_count: u32)
        -> (r: Result<WorldConfig, ConfigError>)
        ensures
            (match r {
                Ok(c) => c == (WorldConfig {
                    width,
                    height,
                    room_width,
                    room_height,
                    obstruction_count,
                }) && c.wf(),
                Err(e) => e == ConfigError::InvalidDimensions && !(WorldConfig {
                    width,
                    height,
                    room_width,
                    room_height,
                    obstruction_count,
                }).wf(),
            }),
    {
        if width <= 0 || height <= 0 || room_width <= 0 || room_width > width || room_height <= 0
            || room_height > height {
            Err(ConfigError::InvalidDimensions)
        } else {
            Ok(WorldConfig { width, height, room_width, room_height, obstruction_count })
        }
    }
}

/// Leftmost column of the centred room.
pub open spec fn room_start_x(c: WorldConfig) -> int {
    (c.width - c.room_width) / 2
}

/// Bottom row of the centred room.
pub open spec fn room_start_y(c: WorldConfig) -> int {
    (c.height - c.room_height) / 2
}

/// Whether `(x, y)` lies on the grid.
pub open spec fn in_grid(c: WorldConfig, x: int, y: int) -> bool {
    0 <= x < c.width && 0 <= y < c.height
}

/// Whether `(x, y)` lies in the carved room.
pub open spec fn in_room(c: WorldConfig, x: int, y: int) -> bool {
    &&& room_start_x(c) <= x < room_start_x(c) + c.room_width
    &&& room_start_y(c) <= y < room_start_y(c) + c.room_height
}

/// Whether `(x, y)` lies strictly inside a room with the given corner and
/// size: at least one tile from its outer ring.  Only here may obstructions
/// fall.
pub open spec fn in_interior(x: int, y: int, sx: int, sy: int, rw: int, rh: int) -> bool {
    &&& sx + 1 <= x < sx + rw - 1
    &&& sy + 1 <= y < sy + rh - 1
}

/// Whether `(x, y)` lies strictly inside the configured room.
pub open spec fn in_room_interior(c: WorldConfig, x: int, y: int) -> bool {
    in_interior(
        x,
        y,
        room_start_x(c),
        room_start_y(c),
        c.room_width as int,
        c.room_height as int,
    )
}

/// Base layer: every coordinate of the `width x height` grid becomes
/// `Wall`; nothing outside the grid is touched.
pub fn fill_walls(map: &mut TileMap, width: i32, height: i32)
    requires
        old(map).wf(),
    ensures
        final(map).wf(),
        forall|a: i32, b: i32|
            #![trigger final(map)@.contains_key((a, b))]
            #![trigger final(map)@[(a, b)]]
            0 <= a < width && 0 <= b < height ==> final(map)@.contains_key((a, b)) && final(map)@[(a, b)] == TileKind::Wall,
        forall|a: i32, b: i32|
            #![trigger final(map)@.contains_key((a, b))]
            #![trigger old(map)@.contains_key((a, b))]
            !(0 <= a < width && 0 <= b < height) ==> final(map)@.contains_key((a, b)) == old(map)@.contains_key((a, b)) && (old(map)@.contains_key((a, b)) ==> final(map)@[(a, b)]
                == old(map)@[(a, b)]),
{
    let mut x: i32 = 0;
    while x < width
        invariant
            map.wf(),
            0 <= x,
            width > 0 ==> x <= width,
            width <= 0 ==> x == 0,
            forall|a: i32, b: i32|
                #![trigger map@.contains_key((a, b))]
                #![trigger map@[(a, b)]]
                0 <= a < x && 0 <= b < height ==> map@.contains_key((a, b)) && map@[(a, b)]
                    == TileKind::Wall,
            forall|a: i32, b: i32|
                #![trigger map@.contains_key((a, b))]
                #![trigger old(map)@.contains_key((a, b))]
                !(0 <= a < width && 0 <= b < height) ==> map@.contains_key((a, b)) == old(map)@.contains_key((a, b)) && (old(map)@.contains_key((a, b)) ==> map@[(a, b)] == old(map)@[(a, b)]),
        decreases width - x,
    {
        let mut y: i32 = 0;
        while y < height
            invariant
                map.wf(),
                0 <= x < width,
                0 <= y,
                height > 0 ==> y <= height,
                height <= 0 ==> y == 0,
                forall|a: i32, b: i32|
                    #![trigger map@.contains_key((a, b))]
                    #![trigger map@[(a, b)]]
                    0 <= a < x && 0 <= b < height ==> map@.contains_key((a, b)) && map@[(a, b)]
                        == TileKind::Wall,
                forall|b: i32|
                    #![trigger map@.contains_key((x, b))]
                    #![trigger map@[(x, b)]]
                    0 <= b < y ==> map@.contains_key((x, b)) && map@[(x, b)] == TileKind::Wall,
                forall|a: i32, b: i32|
                    #![trigger map@.contains_key((a, b))]
                    #![trigger old(map)@.contains_key((a, b))]
                    !(0 <= a < width && 0 <= b < height) ==> map@.contains_key((a, b)) == old(map)@.contains_key((a, b)) && (old(map)@.contains_key((a, b)) ==> map@[(a, b)]
                        == old(map)@[(a, b)]),
            decreases height - y,
        {
            map.set(x, y, TileKind::Wall);
            y = y + 1;
        }
        x = x + 1;
    }
}

/// Room layer: every coordinate of the `room_width x room_height` rectangle
/// whose corner is `(start_x, start_y)` becomes `Floor`, one connected open
/// rectangle; nothing outside it is touched.
pub fn carve_room(map: &mut TileMap, start_x: i32, start_y: i32, room_width: i32, room_height: i32)
    requires
        old(map).wf(),
        i32::MIN <= start_x + room_width <= i32::MAX,
        i32::MIN <= start_y + room_height <= i32::MAX,
    ensures
        final(map).wf(),
        forall|a: i32, b: i32|
            #![trigger final(map)@.contains_key((a, b))]
            #![trigger final(map)@[(a, b)]]
            start_x <= a < start_x + room_width && start_y <= b < start_y + room_height ==> final(map)@.contains_key((a, b)) && final(map)@[(a, b)] == TileKind::Floor,
        forall|a: i32, b: i32|
            #![trigger final(map)@.contains_key((a, b))]
            #![trigger old(map)@.contains_key((a, b))]
            !(start_x <= a < start_x + room_width && start_y <= b < start_y + room_height)
                ==> final(map)@.contains_key((a, b)) == old(map)@.contains_key((a, b)) && (old(map)@.contains_key((a, b)) ==> final(map)@[(a, b)] == old(map)@[(a, b)]),
{
    let end_x = start_x + room_width;
    let end_y = start_y + room_height;
    let mut x: i32 = start_x;
    while x < end_x
        invariant
            map.wf(),
            end_x == start_x + room_width,
            end_y == start_y + room_height,
            start_x <= x,
            room_width > 0 ==> x <= end_x,
            room_width <= 0 ==> x == start_x,
            forall|a: i32, b: i32|
                #![trigger map@.contains_key((a, b))]
                #![trigger map@[(a, b)]]
                start_x <= a < x && start_y <= b < end_y ==> map@.contains_key((a, b)) && map@[
                    (a, b)
                ] == TileKind::Floor,
            forall|a: i32, b: i32|
                #![trigger map@.contains_key((a, b))]
                #![trigger old(map)@.contains_key((a, b))]
                !(start_x <= a < end_x && start_y <= b < end_y) ==> map@.contains_key((a, b))
                    == old(map)@.contains_key((a, b)) && (old(map)@.contains_key((a, b)) ==> map@[
                    (a, b)
                ] == old(map)@[(a, b)]),
        decreases end_x - x,
    {
        let mut y: i32 = start_y;
        while y < end_y
            invariant
                map.wf(),
                end_x == start_x + room_width,
                end_y == start_y + room_height,
                start_x <= x < end_x,
                start_y <= y,
                room_height > 0 ==> y <= end_y,
                room_height <= 0 ==> y == start_y,
                forall|a: i32, b: i32|
                    #![trigger map@.contains_key((a, b))]
                    #![trigger map@[(a, b)]]
                    start_x <= a < x && start_y <= b < end_y ==> map@.contains_key((a, b)) && map@[
                        (a, b)
                    ] == TileKind::Floor,
                forall|b: i32|
                    #![trigger map@.contains_key((x, b))]
                    #![trigger map@[(x, b)]]
                    start_y <= b < y ==> map@.contains_key((x, b)) && map@[(x, b)]
                        == TileKind::Floor,
                forall|a: i32, b: i32|
                    #![trigger map@.contains_key((a, b))]
                    #![trigger old(map)@.contains_key((a, b))]
                    !(start_x <= a < end_x && start_y <= b < end_y) ==> map@.contains_key((a, b))
                        == old(map)@.contains_key((a, b)) && (old(map)@.contains_key((a, b))
                        ==> map@[(a, b)] == old(map)@[(a, b)]),
            decreases end_y - y,
        {
            map.set(x, y, TileKind::Floor);
            y = y + 1;
        }
        x = x + 1;
    }
}

/// Obstruction layer: `count` coordinates are drawn uniformly from the
/// room's strict interior and each becomes `Wall`.  Duplicate draws are
/// allowed and harmless.  A room too narrow to have an interior (either
/// side at most 2) is left untouched: there is nowhere legal to scatter.
/// The map that placing a wall on each drawn coordinate in turn leaves
/// behind: the scatter layer's whole effect, as a function of its draws.
pub open spec fn scatter_result(
    base: Map<(i32, i32), TileKind>,
    draws: Seq<(i32, i32)>,
) -> Map<(i32, i32), TileKind>
    decreases draws.len(),
{
    if draws.len() == 0 {
        base
    } else {
        scatter_result(base, draws.drop_last()).insert(draws.last(), TileKind::Wall)
    }
}

/// Any cell the scatter layer holds differently from its base — newly
/// present, or present with another tile — is one of the drawn coordinates.
proof fn lemma_scatter_result_changed(
    base: Map<(i32, i32), TileKind>,
    draws: Seq<(i32, i32)>,
    p: (i32, i32),
)
    requires
        scatter_result(base, draws).contains_key(p),
        !base.contains_key(p) || scatter_result(base, draws)[p] != base[p],
    ensures
        draws.contains(p),
    decreases draws.len(),
{
    if draws.len() > 0 {
        if p == draws.last() {
            assert(draws[draws.len() - 1] == p);
        } else {
            lemma_scatter_result_changed(base, draws.drop_last(), p);
            let i = choose|i: int|
                0 <= i < draws.drop_last().len() && draws.drop_last()[i] == p;
            assert(draws[i] == p);
        }
    }
}

pub fn scatter_obstructions(
    map: &mut TileMap,
    start_x: i32,
    start_y: i32,
    room_width: i32,
    room_height: i32,
    count: u32,
    rng: &mut RandomSource,
)
    requires
        old(map).wf(),
        i32::MIN <= start_x + room_width <= i32::MAX,
        i32::MIN <= start_y + room_height <= i32::MAX,
    ensures
        final(map).wf(),
        room_width > 2 && room_height > 2 ==> exists|draws: Seq<(i32, i32)>|
            #![trigger scatter_result(old(map)@, draws)]
            draws.len() == count as int && (forall|k: int|
                0 <= k < draws.len() ==> in_interior(
                    (#[trigger] draws[k]).0 as int,
                    draws[k].1 as int,
                    start_x as int,
                    start_y as int,
                    room_width as int,
                    room_height as int,
                )) && final(map)@ == scatter_result(old(map)@, draws),
        room_width <= 2 || room_height <= 2 ==> final(map)@ == old(map)@,
        forall|a: i32, b: i32|
            #![trigger final(map)@.contains_key((a, b))]
            #![trigger old(map)@.contains_key((a, b))]
            !in_interior(a as int, b as int, start_x as int, start_y as int, room_width as int,
                room_height as int) ==> final(map)@.contains_key((a, b)) == old(map)@.contains_key((a, b)) && (old(map)@.contains_key((a, b)) ==> final(map)@[(a, b)]
                == old(map)@[(a, b)]),
        forall|a: i32, b: i32|
            #![trigger final(map)@.contains_key((a, b))]
            #![trigger old(map)@.contains_key((a, b))]
            old(map)@.contains_key((a, b)) ==> final(map)@.contains_key((a, b)),
        forall|a: i32, b: i32|
            #![trigger final(map)@.contains_key((a, b))]
            #![trigger final(map)@[(a, b)]]
            final(map)@.contains_key((a, b)) && (!old(map)@.contains_key((a, b)) || final(map)@[
                (a, b)
            ] != old(map)@[(a, b)]) ==> in_interior(a as int, b as int, start_x as int,
                start_y as int, room_width as int, room_height as int) && final(map)@[(a, b)]
                == TileKind::Wall,
        count == 0 ==> final(map)@ == old(map)@,
{
    if room_width <= 2 || room_height <= 2 {
        return ;
    }
    let lo_x = start_x + 1;
    let lo_y = start_y + 1;
    let span_x = room_width - 2;
    let span_y = room_height - 2;
    let ghost mut draws: Seq<(i32, i32)> = Seq::empty();
    let mut i: u32 = 0;
    while i < count
        invariant
            map.wf(),
            i <= count,
            draws.len() == i as int,
            forall|k: int|
                0 <= k < draws.len() ==> in_interior(
                    (#[trigger] draws[k]).0 as int,
                    draws[k].1 as int,
                    start_x as int,
                    start_y as int,
                    room_width as int,
                    room_height as int,
                ),
            map@ == scatter_result(old(map)@, draws),
            2 < room_width,
            2 < room_height,
            start_x + room_width <= i32::MAX,
            start_y + room_height <= i32::MAX,
            lo_x == start_x + 1,
            lo_y == start_y + 1,
            span_x == room_width - 2,
            span_y == room_height - 2,
            forall|a: i32, b: i32|
                #![trigger map@.contains_key((a, b))]
                #![trigger old(map)@.contains_key((a, b))]
                !in_interior(a as int, b as int, start_x as int, start_y as int, room_width as int,
                    room_height as int) ==> map@.contains_key((a, b)) == old(map)@.contains_key(
                    (a, b),
                ) && (old(map)@.contains_key((a, b)) ==> map@[(a, b)] == old(map)@[(a, b)]),
            forall|a: i32, b: i32|
                #![trigger map@.contains_key((a, b))]
                #![trigger old(map)@.contains_key((a, b))]
                old(map)@.contains_key((a, b)) ==> map@.contains_key((a, b)),
            forall|a: i32, b: i32|
                #![trigger map@.contains_key((a, b))]
                #![trigger map@[(a, b)]]
                map@.contains_key((a, b)) && (!old(map)@.contains_key((a, b)) || map@[(a, b)]
                    != old(map)@[(a, b)]) ==> in_interior(a as int, b as int, start_x as int,
                    start_y as int, room_width as int, room_height as int) && map@[(a, b)]
                    == TileKind::Wall,
            i == 0 ==> map@ == old(map)@,
        decreases count - i,
    {
        let dx = rng.below(span_x as u64);
        let dy = rng.below(span_y as u64);
        let x = lo_x + (dx as i32);
        let y = lo_y + (dy as i32);
        let ghost before = draws;
        map.set(x, y, TileKind::Wall);
        proof {
            draws = draws.push((x, y));
            assert(draws.drop_last() =~= before);
            assert(draws.last() == (x, y));
            assert(map@ == scatter_result(old(map)@, draws));
        }
        i = i + 1;
    }
    proof {
        assert(draws.len() == count as int && (forall|k: int|
            0 <= k < draws.len() ==> in_interior(
                (#[trigger] draws[k]).0 as int,
                draws[k].1 as int,
                start_x as int,
                start_y as int,
                room_width as int,
                room_height as int,
            )) && map@ == scatter_result(old(map)@, draws));
    }
}

/// Builds the world grid for `config`: wall fill, room carve, obstruction
/// scatter, in that order.  The result covers exactly the grid rectangle —
/// every in-grid coordinate holds a tile and no out-of-grid coordinate does
/// — with the whole room carved to floor and walls put back only strictly
/// inside the room's interior, never on its outer ring.
pub fn generate(config: &WorldConfig, rng: &mut RandomSource) -> (map: TileMap)
    requires
        config.wf(),
    ensures
        map.wf(),
        forall|a: i32, b: i32|
            #![trigger map@.contains_key((a, b))]
            map@.contains_key((a, b)) <==> in_grid(*config, a as int, b as int),
        forall|a: i32, b: i32|
            #![trigger map@[(a, b)]]
            in_grid(*config, a as int, b as int) && !in_room(*config, a as int, b as int)
                ==> map@[(a, b)] == TileKind::Wall,
        forall|a: i32, b: i32|
            #![trigger map@[(a, b)]]
            in_room(*config, a as int, b as int) && !in_room_interior(*config, a as int, b as int)
                ==> map@[(a, b)] == TileKind::Floor,
        forall|a: i32, b: i32|
            #![trigger map@[(a, b)]]
            in_room(*config, a as int, b as int) && map@[(a, b)] == TileKind::Wall
                ==> in_room_interior(*config, a as int, b as int),
        config.obstruction_count == 0 ==> forall|a: i32, b: i32|
            #![trigger map@[(a, b)]]
            in_room(*config, a as int, b as int) ==> map@[(a, b)] == TileKind::Floor,
        config.room_width > 2 && config.room_height > 2 && config.obstruction_count > 0
            ==> exists|p: (i32, i32)|
            #![trigger map@[p]]
            in_room_interior(*config, p.0 as int, p.1 as int) && map@.contains_key(p) && map@[p]
                == TileKind::Wall,
        ({
            let walls = Set::new(
                |p: (i32, i32)|
                    map@.contains_key(p) && in_room(*config, p.0 as int, p.1 as int) && map@[p]
                        == TileKind::Wall,
            );
            walls.finite() && walls.len() <= config.obstruction_count as int
        }),
{
    let mut map = TileMap::new();
    let start_x = (config.width - config.room_width) / 2;
    let start_y = (config.height - config.room_height) / 2;
    proof {
        assert(start_x == room_start_x(*config));
        assert(start_y == room_start_y(*config));
        assert(0 <= start_x && start_x + config.room_width <= config.width);
        assert(0 <= start_y && start_y + config.room_height <= config.height);
    }
    fill_walls(&mut map, config.width, config.height);
    carve_room(&mut map, start_x, start_y, config.room_width, config.room_height);
    let ghost carved = map@;
    scatter_obstructions(
        &mut map,
        start_x,
        start_y,
        config.room_width,
        config.room_height,
        config.obstruction_count,
        rng,
    );
    proof {
        broadcast use vstd::seq_lib::seq_to_set_is_finite;

        let c = *config;
        let walls = Set::new(
            |p: (i32, i32)|
                map@.contains_key(p) && in_room(c, p.0 as int, p.1 as int) && map@[p]
                    == TileKind::Wall,
        );
        if c.room_width > 2 && c.room_height > 2 {
            let draws = choose|draws: Seq<(i32, i32)>|
                #![trigger scatter_result(carved, draws)]
                draws.len() == c.obstruction_count as int && (forall|k: int|
                    0 <= k < draws.len() ==> in_interior(
                        (#[trigger] draws[k]).0 as int,
                        draws[k].1 as int,
                        start_x as int,
                        start_y as int,
                        c.room_width as int,
                        c.room_height as int,
                    )) && map@ == scatter_result(carved, draws);
            if c.obstruction_count > 0 {
                let last = draws.last();
                assert(draws[draws.len() - 1] == last);
                assert(map@ == scatter_result(carved, draws.drop_last()).insert(
                    last,
                    TileKind::Wall,
                ));
                assert(map@.contains_key((last.0, last.1)) && map@[(last.0, last.1)]
                    == TileKind::Wall);
                assert(in_room_interior(c, last.0 as int, last.1 as int) && map@.contains_key(
                    last,
                ) && map@[last] == TileKind::Wall);
            }
            assert forall|p: (i32, i32)| walls.contains(p) implies draws.to_set().contains(
                p,
            ) by {
                assert(carved.contains_key((p.0, p.1)) && carved[(p.0, p.1)] == TileKind::Floor);
                assert(carved.contains_key(p) && carved[p] == TileKind::Floor);
                lemma_scatter_result_changed(carved, draws, p);
            }
            draws.lemma_cardinality_of_set();
            vstd::set_lib::lemma_len_subset(walls, draws.to_set());
        } else {
            assert(map@ == carved);
            assert(walls =~= Set::<(i32, i32)>::empty()) by {
                assert forall|p: (i32, i32)| !walls.contains(p) by {
                    if map@.contains_key(p) && in_room(c, p.0 as int, p.1 as int) {
                        assert(map@[(p.0, p.1)] == TileKind::Floor);
                    }
                }
            }
        }
    }
    map
}

} // verus!
