use rogue::hazards::{
    destroy_hazard, hazard_tick, spawn_hazard, Hazard, HazardKind,
};
use rogue::map::{GameMap, TileType};

fn open_map(w: i32, h: i32) -> GameMap {
    let mut map = GameMap::new(w, h);
    for y in 0..h {
        for x in 0..w {
            map.set_tile(x, y, TileType::Floor);
        }
    }
    map
}

/// Runtime check of the flag/entity agreement: for every tile and kind the
/// flag is true exactly when exactly one live hazard of that kind sits
/// there.
fn assert_consistent(map: &GameMap, hazards: &Vec<Hazard>) {
    for y in 0..map.height {
        for x in 0..map.width {
            let idx = map.xy_idx(x, y);
            for kind in [HazardKind::Fire, HazardKind::Chill] {
                let flag = match kind {
                    HazardKind::Fire => map.fire[idx],
                    HazardKind::Chill => map.chill[idx],
                };
                let count = hazards
                    .iter()
                    .filter(|h| h.kind == kind && h.pos.x == x && h.pos.y == y)
                    .count();
                assert!(count <= 1, "two hazards of one kind on ({}, {})", x, y);
                assert_eq!(flag, count == 1, "flag/entity mismatch at ({}, {})", x, y);
            }
        }
    }
}

#[test]
fn spawn_sets_the_flag_and_spawn_again_is_refused() {
    let mut map = open_map(5, 5);
    let mut hazards: Vec<Hazard> = Vec::new();
    let first = spawn_hazard(&mut map, &mut hazards, HazardKind::Fire, 2, 2, 50, 10, 4);
    assert_eq!(first, Some(0));
    assert!(map.fire[map.xy_idx(2, 2)]);
    assert_consistent(&map, &hazards);

    // A second fire on the same tile is refused; a chill is allowed.
    assert_eq!(spawn_hazard(&mut map, &mut hazards, HazardKind::Fire, 2, 2, 50, 10, 4), None);
    assert_eq!(
        spawn_hazard(&mut map, &mut hazards, HazardKind::Chill, 2, 2, 50, 10, 4),
        Some(1)
    );
    assert_consistent(&map, &hazards);
}

#[test]
fn spawn_on_a_wall_is_refused() {
    let mut map = open_map(5, 5);
    map.set_tile(1, 1, TileType::Wall);
    let mut hazards: Vec<Hazard> = Vec::new();
    assert_eq!(spawn_hazard(&mut map, &mut hazards, HazardKind::Fire, 1, 1, 50, 10, 4), None);
    assert!(hazards.is_empty());
    assert_consistent(&map, &hazards);
}

#[test]
fn destroy_clears_the_flag_before_removing_the_entity() {
    let mut map = open_map(5, 5);
    let mut hazards: Vec<Hazard> = Vec::new();
    spawn_hazard(&mut map, &mut hazards, HazardKind::Fire, 1, 1, 50, 10, 4);
    spawn_hazard(&mut map, &mut hazards, HazardKind::Fire, 3, 3, 50, 10, 4);
    assert_consistent(&map, &hazards);
    destroy_hazard(&mut map, &mut hazards, 0);
    assert!(!map.fire[map.xy_idx(1, 1)]);
    assert!(map.fire[map.xy_idx(3, 3)]);
    assert_eq!(hazards.len(), 1);
    assert_consistent(&map, &hazards);
}

#[test]
fn certain_fire_spread_produces_a_weaker_copy_next_door() {
    // Spread chance 100, dissipation 0: one tick must create a new fire on
    // an open adjacent tile with chances (80, 20), and the original flag
    // stays set.
    let mut map = open_map(5, 5);
    let mut hazards: Vec<Hazard> = Vec::new();
    spawn_hazard(&mut map, &mut hazards, HazardKind::Fire, 2, 2, 100, 0, 4);
    let mut rng = rltk::RandomNumberGenerator::seeded(11);
    hazard_tick(&mut map, &mut hazards, &mut rng);

    assert_eq!(hazards.len(), 2, "the copy must exist and nothing dissipates");
    assert!(map.fire[map.xy_idx(2, 2)], "the original's flag stays true");
    let child = hazards[1];
    assert_eq!(child.kind, HazardKind::Fire);
    assert_eq!(child.spread_chance, 80);
    assert_eq!(child.dissipate_chance, 20);
    assert_eq!(child.contact_damage, 4);
    let dx = (child.pos.x - 2).abs();
    let dy = (child.pos.y - 2).abs();
    assert!(dx <= 1 && dy <= 1 && (dx, dy) != (0, 0), "the copy is adjacent");
    assert_consistent(&map, &hazards);
}

#[test]
fn certain_dissipation_destroys_the_hazard() {
    let mut map = open_map(5, 5);
    let mut hazards: Vec<Hazard> = Vec::new();
    // No spread, dissipation beyond the die range: gone after one tick.
    spawn_hazard(&mut map, &mut hazards, HazardKind::Chill, 2, 2, 0, 10000, 2);
    let mut rng = rltk::RandomNumberGenerator::seeded(12);
    hazard_tick(&mut map, &mut hazards, &mut rng);
    assert!(hazards.is_empty());
    assert!(!map.chill[map.xy_idx(2, 2)]);
    assert_consistent(&map, &hazards);
}

#[test]
fn ticks_preserve_the_invariant_as_hazards_fill_the_map() {
    let mut map = open_map(4, 4);
    let mut hazards: Vec<Hazard> = Vec::new();
    spawn_hazard(&mut map, &mut hazards, HazardKind::Fire, 1, 1, 100, 0, 4);
    spawn_hazard(&mut map, &mut hazards, HazardKind::Chill, 2, 2, 100, 0, 2);
    let mut rng = rltk::RandomNumberGenerator::seeded(13);
    for _ in 0..10 {
        hazard_tick(&mut map, &mut hazards, &mut rng);
        assert_consistent(&map, &hazards);
    }
}
