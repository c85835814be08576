use rogue::entity_spawners::{
    get_monster_spawn_table, spawn_items_in_region, spawn_monsters, spawn_monsters_from_table,
    spawn_random_item, spawn_random_monster, MonsterSpawnParameters, MonsterType, SpawnError,
};
use rogue::map::{GameMap, TileType};

fn open_spawnable_map(w: i32, h: i32) -> GameMap {
    let mut map = GameMap::new(w, h);
    for y in 0..h {
        for x in 0..w {
            map.set_tile(x, y, TileType::Floor);
            let idx = map.xy_idx(x, y);
            map.ok_to_spawn[idx] = true;
        }
    }
    map
}

#[test]
fn quota_is_met_with_exactly_one_deterministic_draw() {
    // Difficulty quota 5 with every draw returning an archetype of
    // difficulty 5: the loop places exactly one monster and stops.
    let mut map = open_spawnable_map(5, 5);
    let mut rng = rltk::RandomNumberGenerator::seeded(21);
    let table = vec![(MonsterType::Orc, MonsterSpawnParameters::new(5, 1, 10, 100))];
    let placed = spawn_monsters_from_table(&mut map, &mut rng, 1, &table, 5)
        .expect("open map has spawn points");
    assert_eq!(placed.len(), 1);
    assert_eq!(placed[0].monster_type, MonsterType::Orc);
    let idx = map.xy_idx(placed[0].x, placed[0].y);
    assert!(!map.ok_to_spawn[idx], "the used tile lost its eligibility");
}

#[test]
fn spawning_accumulates_difficulty_up_to_the_quota() {
    let mut map = open_spawnable_map(20, 20);
    let mut rng = rltk::RandomNumberGenerator::seeded(22);
    let placed = spawn_monsters(&mut map, &mut rng, 1).expect("open map has spawn points");
    assert!(!placed.is_empty());
    // At depth 1 only the shallow archetypes participate.
    let mut total_difficulty = 0;
    for c in &placed {
        let d = match c.monster_type {
            MonsterType::Rat | MonsterType::Bat => 1,
            MonsterType::GoblinBasic => 2,
            other => panic!("archetype {:?} is not valid at depth 1", other),
        };
        total_difficulty += d;
    }
    assert!(total_difficulty >= 5, "the quota at depth 1 is 5");
}

#[test]
fn a_stalled_quota_is_distinguished_from_a_missing_point() {
    // Every draw succeeds but is worth zero difficulty: the quota can never
    // be reached, the attempt budget runs out, and the distinct stall error
    // is reported rather than the fatal missing-point one.
    let mut map = open_spawnable_map(8, 8);
    let mut rng = rltk::RandomNumberGenerator::seeded(28);
    let table = vec![(MonsterType::Rat, MonsterSpawnParameters::new(0, 1, 10, 100))];
    assert_eq!(
        spawn_monsters_from_table(&mut map, &mut rng, 1, &table, 5),
        Err(SpawnError::QuotaUnreached)
    );
}

#[test]
fn monster_placements_use_distinct_tiles() {
    let mut map = open_spawnable_map(20, 20);
    let mut rng = rltk::RandomNumberGenerator::seeded(29);
    let placed = spawn_monsters(&mut map, &mut rng, 2).expect("open map has spawn points");
    for (i, a) in placed.iter().enumerate() {
        for b in placed.iter().skip(i + 1) {
            assert!(!(a.x == b.x && a.y == b.y), "two monsters on one tile");
        }
        let idx = map.xy_idx(a.x, a.y);
        assert!(!map.blocked[idx], "placement tiles were unblocked at selection");
    }
}

#[test]
fn a_map_without_spawn_points_is_a_fatal_condition() {
    // All walls: no unblocked point exists, the fatal error is reported.
    let mut map = GameMap::new(5, 5);
    let mut rng = rltk::RandomNumberGenerator::seeded(23);
    assert_eq!(spawn_monsters(&mut map, &mut rng, 1), Err(SpawnError::NoSpawnPoint));
}

#[test]
fn depth_filter_excludes_out_of_range_archetypes() {
    let mut rng = rltk::RandomNumberGenerator::seeded(24);
    for _ in 0..500 {
        match spawn_random_monster(&mut rng, 1) {
            Some(MonsterType::Rat) | Some(MonsterType::Bat) | Some(MonsterType::GoblinBasic) => {}
            other => panic!("{:?} drawn outside its depth range", other),
        }
    }
    // Beyond every archetype's range nothing can be drawn.
    for _ in 0..100 {
        assert_eq!(spawn_random_monster(&mut rng, 100), None);
    }
}

#[test]
fn the_static_spawn_table_matches_the_catalog() {
    let table = get_monster_spawn_table();
    assert_eq!(table.len(), 11);
    assert_eq!(table[0].0, MonsterType::Rat);
    assert_eq!(table[0].1, MonsterSpawnParameters::new(1, 1, 4, 25));
    assert_eq!(table[10].0, MonsterType::Orc);
    assert_eq!(table[10].1, MonsterSpawnParameters::new(4, 5, 12, 25));
}

#[test]
fn item_rolls_always_draw_an_outcome() {
    let mut rng = rltk::RandomNumberGenerator::seeded(25);
    for _ in 0..200 {
        assert!(spawn_random_item(&mut rng, 1).is_some());
    }
}

#[test]
fn region_spawning_consumes_tiles_and_places_real_items() {
    let mut map = open_spawnable_map(6, 6);
    let mut region = Vec::new();
    for y in 0..6 {
        for x in 0..6 {
            region.push(map.xy_idx(x, y));
        }
    }
    let mut rng = rltk::RandomNumberGenerator::seeded(26);
    let placed = spawn_items_in_region(&mut map, &mut rng, &region, 2);
    assert!(placed.len() <= region.len());
    for (i, c) in placed.iter().enumerate() {
        assert!(0 <= c.x && c.x < 6 && 0 <= c.y && c.y < 6);
        let idx = map.xy_idx(c.x, c.y);
        assert!(!map.ok_to_spawn[idx]);
        assert!(region.contains(&idx), "items are placed only on region tiles");
        for d in placed.iter().skip(i + 1) {
            assert!(!(c.x == d.x && c.y == d.y), "two items on one tile");
        }
    }
}

#[test]
fn an_empty_region_spawns_nothing() {
    let mut map = open_spawnable_map(4, 4);
    let region: Vec<usize> = Vec::new();
    let mut rng = rltk::RandomNumberGenerator::seeded(27);
    assert!(spawn_items_in_region(&mut map, &mut rng, &region, 1).is_empty());
}
