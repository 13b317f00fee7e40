use rogue_world::grid::TileKind;
use rogue_world::grid::TileMap;
use rogue_world::mapgen::ConfigError;
use rogue_world::mapgen::WorldConfig;
use rogue_world::mapgen::{carve_room, fill_walls, generate, scatter_obstructions};
use rogue_world::movement::{apply_move, compute_delta, try_move, Position};
use rogue_world::random::RandomSource;
use rogue_world::spawn::{pick_floor_tile, SpawnError};

fn default_config() -> WorldConfig {
    WorldConfig::new(40, 30, 20, 15, 10).unwrap()
}

#[test]
fn tilemap_get_and_set() {
    let mut m = TileMap::new();
    assert_eq!(m.get(0, 0), None);
    m.set(3, 4, TileKind::Floor);
    assert_eq!(m.get(3, 4), Some(TileKind::Floor));
    // Overwrite wins.
    m.set(3, 4, TileKind::Wall);
    assert_eq!(m.get(3, 4), Some(TileKind::Wall));
    // The map itself enforces no bounds: negative coordinates store fine.
    m.set(-5, -7, TileKind::Floor);
    assert_eq!(m.get(-5, -7), Some(TileKind::Floor));
    // Absence, not an error, for anything never set.
    assert_eq!(m.get(-5, -6), None);
    assert_eq!(m.get(i32::MAX, i32::MIN), None);
}

#[test]
fn tilemap_enumeration() {
    let mut m = TileMap::new();
    m.set(0, 0, TileKind::Wall);
    m.set(1, 0, TileKind::Floor);
    m.set(2, 0, TileKind::Floor);
    m.set(1, 0, TileKind::Floor); // duplicate write, one entry
    let mut entries = m.tiles();
    entries.sort();
    assert_eq!(
        entries,
        vec![
            ((0, 0), TileKind::Wall),
            ((1, 0), TileKind::Floor),
            ((2, 0), TileKind::Floor),
        ]
    );
    let mut floors = m.floor_positions();
    floors.sort();
    assert_eq!(floors, vec![(1, 0), (2, 0)]);
}

#[test]
fn config_rejects_bad_dimensions() {
    assert_eq!(
        WorldConfig::new(0, 30, 20, 15, 10),
        Err(ConfigError::InvalidDimensions)
    );
    assert_eq!(
        WorldConfig::new(40, -1, 20, 15, 10),
        Err(ConfigError::InvalidDimensions)
    );
    assert_eq!(
        WorldConfig::new(40, 30, 41, 15, 10),
        Err(ConfigError::InvalidDimensions)
    );
    assert_eq!(
        WorldConfig::new(40, 30, 20, 31, 10),
        Err(ConfigError::InvalidDimensions)
    );
    assert_eq!(
        WorldConfig::new(40, 30, 0, 15, 10),
        Err(ConfigError::InvalidDimensions)
    );
    let c = WorldConfig::new(40, 30, 20, 15, 10).unwrap();
    assert_eq!(c.width, 40);
    assert_eq!(c.height, 30);
    assert_eq!(c.room_width, 20);
    assert_eq!(c.room_height, 15);
    assert_eq!(c.obstruction_count, 10);
}

#[test]
fn full_coverage_after_generation() {
    let c = default_config();
    let mut rng = RandomSource::from_seed(17);
    let map = generate(&c, &mut rng);
    for x in 0..40 {
        for y in 0..30 {
            let t = map.get(x, y);
            assert!(
                t == Some(TileKind::Wall) || t == Some(TileKind::Floor),
                "({}, {}) has no tile",
                x,
                y
            );
        }
    }
    // Nothing beyond the grid rectangle.
    assert_eq!(map.get(-1, 0), None);
    assert_eq!(map.get(40, 0), None);
    assert_eq!(map.get(0, -1), None);
    assert_eq!(map.get(0, 30), None);
}

#[test]
fn room_carve_is_floor_before_scatter() {
    // The default 40x30 grid with a 20x15 room carves the rectangle with
    // corner (10, 7): columns 10..=29, rows 7..=21.
    let mut map = TileMap::new();
    fill_walls(&mut map, 40, 30);
    carve_room(&mut map, 10, 7, 20, 15);
    for x in 10..=29 {
        for y in 7..=21 {
            assert_eq!(map.get(x, y), Some(TileKind::Floor), "({}, {})", x, y);
        }
    }
    // Just outside the room it is still wall.
    assert_eq!(map.get(9, 7), Some(TileKind::Wall));
    assert_eq!(map.get(30, 7), Some(TileKind::Wall));
    assert_eq!(map.get(10, 6), Some(TileKind::Wall));
    assert_eq!(map.get(10, 22), Some(TileKind::Wall));
}

#[test]
fn obstructions_stay_strictly_inside_room() {
    // For the default configuration the room spans x 10..=29, y 7..=21, so
    // obstructions may only land on x 11..=28, y 8..=20.
    for seed in 0..20u64 {
        let c = default_config();
        let mut rng = RandomSource::from_seed(seed);
        let map = generate(&c, &mut rng);
        for x in 10..=29 {
            for y in 7..=21 {
                if map.get(x, y) == Some(TileKind::Wall) {
                    assert!(
                        11 <= x && x <= 28 && 8 <= y && y <= 20,
                        "obstruction on the ring at ({}, {}), seed {}",
                        x,
                        y,
                        seed
                    );
                }
            }
        }
        // The room's outer ring in particular stays open floor.
        for x in 10..=29 {
            assert_eq!(map.get(x, 7), Some(TileKind::Floor));
            assert_eq!(map.get(x, 21), Some(TileKind::Floor));
        }
        for y in 7..=21 {
            assert_eq!(map.get(10, y), Some(TileKind::Floor));
            assert_eq!(map.get(29, y), Some(TileKind::Floor));
        }
        // Everything in the grid but outside the room is wall.
        for x in 0..40 {
            for y in 0..30 {
                if !(10 <= x && x <= 29 && 7 <= y && y <= 21) {
                    assert_eq!(map.get(x, y), Some(TileKind::Wall));
                }
            }
        }
    }
}

#[test]
fn scatter_skips_rooms_without_interior() {
    // A room 2 tiles wide has no strict interior; scattering must leave the
    // map untouched rather than draw from an empty range.
    let mut map = TileMap::new();
    fill_walls(&mut map, 10, 10);
    carve_room(&mut map, 4, 4, 2, 5);
    let mut rng = RandomSource::from_seed(3);
    scatter_obstructions(&mut map, 4, 4, 2, 5, 10, &mut rng);
    for x in 4..=5 {
        for y in 4..=8 {
            assert_eq!(map.get(x, y), Some(TileKind::Floor));
        }
    }
}

#[test]
fn blocked_move_changes_nothing() {
    let mut map = TileMap::new();
    map.set(1, 1, TileKind::Floor);
    map.set(2, 1, TileKind::Wall);
    // Candidate is a wall.
    assert_eq!(try_move(&map, Position { x: 1, y: 1 }, 1, 0), None);
    // Candidate is absent.
    assert_eq!(try_move(&map, Position { x: 1, y: 1 }, 0, 1), None);
    assert_eq!(try_move(&map, Position { x: 1, y: 1 }, -1, 0), None);
    let mut pos = Position { x: 1, y: 1 };
    apply_move(&map, &mut pos, 1, 0);
    assert_eq!(pos, Position { x: 1, y: 1 });
    apply_move(&map, &mut pos, 0, -1);
    assert_eq!(pos, Position { x: 1, y: 1 });
}

#[test]
fn accepted_move_returns_candidate() {
    let mut map = TileMap::new();
    for x in 0..3 {
        for y in 0..3 {
            map.set(x, y, TileKind::Floor);
        }
    }
    assert_eq!(
        try_move(&map, Position { x: 1, y: 1 }, 1, 0),
        Some(Position { x: 2, y: 1 })
    );
    assert_eq!(
        try_move(&map, Position { x: 1, y: 1 }, 0, -1),
        Some(Position { x: 1, y: 0 })
    );
    // Two perpendicular inputs in one tick make one atomic diagonal step.
    assert_eq!(
        try_move(&map, Position { x: 1, y: 1 }, 1, 1),
        Some(Position { x: 2, y: 2 })
    );
    // The zero delta is a move onto one's own floor tile.
    assert_eq!(
        try_move(&map, Position { x: 1, y: 1 }, 0, 0),
        Some(Position { x: 1, y: 1 })
    );
    let mut pos = Position { x: 0, y: 0 };
    apply_move(&map, &mut pos, 1, 1);
    assert_eq!(pos, Position { x: 1, y: 1 });
}

#[test]
fn spawn_lands_on_floor() {
    for seed in 0..10u64 {
        let c = default_config();
        let mut rng = RandomSource::from_seed(seed);
        let map = generate(&c, &mut rng);
        let p = pick_floor_tile(&map, &mut rng).unwrap();
        assert_eq!(map.get(p.x, p.y), Some(TileKind::Floor));
    }
}

#[test]
fn spawn_fails_without_floor() {
    let mut rng = RandomSource::from_seed(5);
    // A map of nothing at all.
    let empty = TileMap::new();
    assert_eq!(
        pick_floor_tile(&empty, &mut rng),
        Err(SpawnError::NoValidSpawn)
    );
    // A map of walls only.
    let mut walls = TileMap::new();
    fill_walls(&mut walls, 8, 8);
    assert_eq!(
        pick_floor_tile(&walls, &mut rng),
        Err(SpawnError::NoValidSpawn)
    );
}

#[test]
fn five_by_five_scenario() {
    // A 5x5 grid with a 3x3 room and no obstructions carves exactly
    // (1,1)..(3,3); a move east from (2,2) is accepted, a second one hits
    // the wall at (4,2) and changes nothing.
    let c = WorldConfig::new(5, 5, 3, 3, 0).unwrap();
    let mut rng = RandomSource::from_seed(1);
    let map = generate(&c, &mut rng);
    for x in 0..5 {
        for y in 0..5 {
            let expected = if 1 <= x && x <= 3 && 1 <= y && y <= 3 {
                TileKind::Floor
            } else {
                TileKind::Wall
            };
            assert_eq!(map.get(x, y), Some(expected), "({}, {})", x, y);
        }
    }
    let mut player = Position { x: 2, y: 2 };
    apply_move(&map, &mut player, 1, 0);
    assert_eq!(player, Position { x: 3, y: 2 });
    apply_move(&map, &mut player, 1, 0);
    assert_eq!(player, Position { x: 3, y: 2 });
}

#[test]
fn obstruction_count_is_bounded() {
    // Each of the 10 draws overwrites one interior tile; duplicates may
    // coincide, so between 1 and 10 interior tiles end up as walls.
    for seed in 0..20u64 {
        let c = default_config();
        let mut rng = RandomSource::from_seed(seed);
        let map = generate(&c, &mut rng);
        let mut walls = 0;
        for x in 10..=29 {
            for y in 7..=21 {
                if map.get(x, y) == Some(TileKind::Wall) {
                    walls += 1;
                }
            }
        }
        assert!(1 <= walls && walls <= 10, "{} walls, seed {}", walls, seed);
    }
}

#[test]
fn delta_combination_per_tick() {
    // Each axis independently; of opposite signals the later-checked wins.
    assert_eq!(compute_delta(false, false, false, false), (0, 0));
    assert_eq!(compute_delta(true, false, false, false), (0, 1));
    assert_eq!(compute_delta(false, true, false, false), (0, -1));
    assert_eq!(compute_delta(false, false, true, false), (-1, 0));
    assert_eq!(compute_delta(false, false, false, true), (1, 0));
    // Perpendicular signals make one diagonal step.
    assert_eq!(compute_delta(true, false, false, true), (1, 1));
    assert_eq!(compute_delta(false, true, true, false), (-1, -1));
    // Opposite signals: down beats up, right beats left.
    assert_eq!(compute_delta(true, true, false, false), (0, -1));
    assert_eq!(compute_delta(false, false, true, true), (1, 0));
    assert_eq!(compute_delta(true, true, true, true), (1, -1));
}

#[test]
fn random_below_stays_in_range() {
    let mut rng = RandomSource::from_seed(42);
    // A bound of one leaves a single possible value.
    assert_eq!(rng.below(1), 0);
    for bound in 1..100u64 {
        assert!(rng.below(bound) < bound);
    }
    // The same seed replays the same stream.
    let mut a = RandomSource::from_seed(9);
    let mut b = RandomSource::from_seed(9);
    for _ in 0..50 {
        assert_eq!(a.below(1000), b.below(1000));
    }
}
