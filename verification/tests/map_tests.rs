use rogue::components::Position;
use rogue::map::{GameMap, Rectangle, TileType, MAP_HEIGHT, MAP_WIDTH};
use rogue::monster_ai_system::{move_monster, random_adjacent_position};

fn open_map(w: i32, h: i32) -> GameMap {
    let mut map = GameMap::new(w, h);
    for y in 0..h {
        for x in 0..w {
            map.set_tile(x, y, TileType::Floor);
        }
    }
    map
}

#[test]
fn index_conversions_roundtrip() {
    let map = GameMap::new(7, 5);
    for y in 0..5 {
        for x in 0..7 {
            let idx = map.xy_idx(x, y);
            assert_eq!(map.idx_xy(idx), (x, y));
        }
    }
    assert_eq!(map.xy_idx(0, 0), 0);
    assert_eq!(map.xy_idx(6, 4), 34);
}

#[test]
fn the_ring_holds_exactly_the_tiles_at_the_distance() {
    let map = GameMap::new(5, 5);
    let circle = map.get_l_infinity_circle_around(Position { x: 2, y: 2 }, 2);
    // On a 5x5 grid the ring at Chebyshev distance 2 from the center is
    // the full border: 16 tiles.
    assert_eq!(circle.len(), 16);
    for p in &circle {
        let d = (p.x - 2).abs().max((p.y - 2).abs());
        assert_eq!(d, 2);
    }
    // Distance zero: just the point itself.
    let center = map.get_l_infinity_circle_around(Position { x: 2, y: 2 }, 0);
    assert_eq!(center.len(), 1);
    assert_eq!(center[0], Position { x: 2, y: 2 });
}

#[test]
fn carving_a_room_opens_its_interior() {
    let mut map = GameMap::new(10, 10);
    let room = Rectangle::new(1, 1, 5, 5);
    map.apply_room(&room);
    for y in 0..10 {
        for x in 0..10 {
            let idx = map.xy_idx(x, y);
            let inside = room.x1 < x && x <= room.x2 && room.y1 < y && y <= room.y2;
            if inside {
                assert_eq!(map.tiles[idx], TileType::Floor);
                assert!(!map.blocked[idx]);
                assert!(map.ok_to_spawn[idx]);
            } else {
                assert_eq!(map.tiles[idx], TileType::Wall);
                assert!(map.blocked[idx]);
            }
        }
    }
}

#[test]
fn the_generator_produces_a_well_formed_dungeon() {
    let mut rng = rltk::RandomNumberGenerator::seeded(31);
    let map = GameMap::new_rooms_and_corridors(&mut rng);
    assert_eq!(map.width, MAP_WIDTH);
    assert_eq!(map.height, MAP_HEIGHT);
    assert_eq!(map.tiles.len(), (MAP_WIDTH * MAP_HEIGHT) as usize);
    assert!(!map.rooms.is_empty());
    // Rooms fit the map and never overlap.
    for (i, a) in map.rooms.iter().enumerate() {
        assert!(0 <= a.x1 && a.x2 <= MAP_WIDTH - 2);
        assert!(0 <= a.y1 && a.y2 <= MAP_HEIGHT - 2);
        for b in map.rooms.iter().skip(i + 1) {
            let intersects =
                a.x1 <= b.x2 && a.x2 >= b.x1 && a.y1 <= b.y2 && a.y2 >= b.y1;
            assert!(!intersects, "rooms must not overlap");
        }
    }
    // Carved floor exists and the blocked grid agrees with the walls.
    let mut floors = 0;
    for idx in 0..map.tiles.len() {
        if map.tiles[idx] == TileType::Floor {
            floors += 1;
            assert!(!map.blocked[idx]);
        } else {
            assert!(map.blocked[idx]);
        }
    }
    assert!(floors > 0);
}

#[test]
fn moving_respects_the_blocked_grid() {
    let mut map = open_map(5, 5);
    let start_idx = map.xy_idx(1, 1);
    map.blocked[start_idx] = true;  // the monster occupies its tile
    let mut pos = Position { x: 1, y: 1 };
    let mut viewshed = rogue::components::Viewshed {
        visible_tiles: Vec::new(),
        range: 8,
        dirty: false,
    };

    // Moving onto an open tile updates position, blocking and the dirty
    // flag.
    move_monster(&mut map, &mut pos, 2, 2, &mut viewshed);
    assert_eq!(pos, Position { x: 2, y: 2 });
    assert!(!map.blocked[map.xy_idx(1, 1)]);
    assert!(map.blocked[map.xy_idx(2, 2)]);
    assert!(viewshed.dirty);

    // Moving onto a blocked tile is refused outright.
    let wall_idx = map.xy_idx(3, 3);
    map.blocked[wall_idx] = true;
    viewshed.dirty = false;
    move_monster(&mut map, &mut pos, 3, 3, &mut viewshed);
    assert_eq!(pos, Position { x: 2, y: 2 });
    assert!(!viewshed.dirty);
    assert!(map.blocked[map.xy_idx(2, 2)]);
}

#[test]
fn random_adjacent_positions_stay_near_and_unblocked() {
    let mut map = open_map(5, 5);
    let own_idx = map.xy_idx(0, 0);
    map.blocked[own_idx] = true;
    let mut rng = rltk::RandomNumberGenerator::seeded(32);
    for _ in 0..100 {
        let (x, y) = random_adjacent_position(&map, Position { x: 0, y: 0 }, &mut rng);
        assert!((x - 0).abs() <= 1 && (y - 0).abs() <= 1);
        assert!(0 <= x && x < 5 && 0 <= y && y < 5);
        let idx = map.xy_idx(x, y);
        assert!(!map.blocked[idx] || (x, y) == (0, 0));
    }
}

#[test]
fn random_unblocked_points_are_unblocked() {
    let map = open_map(4, 4);
    let mut rng = rltk::RandomNumberGenerator::seeded(33);
    for _ in 0..50 {
        let (x, y) = map
            .random_unblocked_point(100, &mut rng)
            .expect("open map has unblocked points");
        let idx = map.xy_idx(x, y);
        assert!(!map.blocked[idx]);
    }
}
