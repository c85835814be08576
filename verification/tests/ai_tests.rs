use rogue::components::{
    CombatStats, Monster, MonsterAI, MonsterAttackSpellcasterAI, MonsterBasicAI, MonsterClericAI,
    MovementRoutingOptions, Position, SpellCharges, Viewshed, WantsToMeleeAttack,
    WantsToUseTargeted,
};
use rogue::map::{GameMap, TileType};
use rogue::monster_ai_system::{
    get_position_at_range_from_player, MonsterAttackSpellcasterAISystem, MonsterBasicAISystem,
    MonsterClericAISystem,
};
use rogue::routing::{cost_field, find_lowest_exit, COST_CAP};

fn routing() -> MovementRoutingOptions {
    MovementRoutingOptions { avoid_blocked: true, avoid_fire: false, avoid_chill: false }
}

fn open_map(w: i32, h: i32) -> GameMap {
    let mut map = GameMap::new(w, h);
    for y in 0..h {
        for x in 0..w {
            map.set_tile(x, y, TileType::Floor);
        }
    }
    map
}

fn full_viewshed(map: &GameMap) -> Viewshed {
    let mut tiles = Vec::new();
    for y in 0..map.height {
        for x in 0..map.width {
            tiles.push(Position { x, y });
        }
    }
    Viewshed { visible_tiles: tiles, range: 8, dirty: false }
}

fn mk_monster(x: i32, y: i32, ai: MonsterAI) -> Monster {
    Monster {
        pos: Position { x, y },
        viewshed: Viewshed { visible_tiles: Vec::new(), range: 8, dirty: false },
        ai,
        stats: CombatStats { hp: 10, max_hp: 10 },
        can_act: true,
        frozen: None,
        burning: None,
        spells: Vec::new(),
        wants_melee: None,
        wants_targeted: None,
        wants_take_damage: Vec::new(),
    }
}

fn basic_ai(keep_following: i32, wander: bool) -> MonsterAI {
    MonsterAI::Basic(MonsterBasicAI {
        keep_following_turns: keep_following,
        keep_following_turns_max: 5,
        no_visibility_wander: wander,
        routing_options: routing(),
    })
}

fn kf(m: &Monster) -> i32 {
    match m.ai {
        MonsterAI::Basic(b) => b.keep_following_turns,
        _ => panic!("not a basic AI"),
    }
}

#[test]
fn adjacency_dominates_pursuit() {
    // An actor adjacent to the target emits a melee intent and does not
    // move, even though an open path to the target exists.
    let mut map = open_map(5, 5);
    let ppos = Position { x: 2, y: 2 };
    let mut m = mk_monster(1, 1, basic_ai(0, false));
    m.viewshed = full_viewshed(&map);
    let mut monsters = vec![m];
    let mut rng = rltk::RandomNumberGenerator::seeded(5);
    let mut system = MonsterBasicAISystem {};
    system.run(&mut map, ppos, 0, &mut monsters, &mut rng);
    assert_eq!(monsters[0].wants_melee, Some(WantsToMeleeAttack { target: 0 }));
    assert_eq!(monsters[0].pos, Position { x: 1, y: 1 });
    assert!(!monsters[0].can_act);
}

#[test]
fn pursuit_moves_one_step_toward_a_visible_target() {
    let mut map = open_map(5, 5);
    let ppos = Position { x: 4, y: 4 };
    let mut m = mk_monster(0, 0, basic_ai(0, false));
    m.viewshed = full_viewshed(&map);
    let mut monsters = vec![m];
    let mut rng = rltk::RandomNumberGenerator::seeded(6);
    let mut system = MonsterBasicAISystem {};
    system.run(&mut map, ppos, 0, &mut monsters, &mut rng);
    // One diagonal step along the shortest path, and the memory resets.
    assert_eq!(monsters[0].pos, Position { x: 1, y: 1 });
    assert!(monsters[0].viewshed.dirty);
    assert_eq!(kf(&monsters[0]), 5);
    assert_eq!(monsters[0].wants_melee, None);
}

#[test]
fn keep_following_decays_once_per_tick_then_stops() {
    // Memory K = 3 with the target never visible: the actor pursues for
    // exactly three more ticks, then idles on the fourth.
    let mut map = open_map(9, 9);
    let ppos = Position { x: 8, y: 8 };
    let m = mk_monster(0, 0, basic_ai(3, false));
    let mut monsters = vec![m];
    let mut rng = rltk::RandomNumberGenerator::seeded(7);
    let mut system = MonsterBasicAISystem {};
    let mut expected_memory = 3;
    for _ in 0..3 {
        let before = monsters[0].pos;
        monsters[0].can_act = true;
        system.run(&mut map, ppos, 0, &mut monsters, &mut rng);
        expected_memory -= 1;
        assert_eq!(kf(&monsters[0]), expected_memory);
        assert_ne!(monsters[0].pos, before, "pursuit should keep moving");
    }
    // Memory exhausted: with wandering off, the fourth tick is a no-op.
    let resting = monsters[0].pos;
    monsters[0].can_act = true;
    system.run(&mut map, ppos, 0, &mut monsters, &mut rng);
    assert_eq!(kf(&monsters[0]), 0);
    assert_eq!(monsters[0].pos, resting);
}

#[test]
fn every_branch_consumes_the_turn() {
    let mut map = open_map(5, 5);
    let ppos = Position { x: 2, y: 2 };
    let mut rng = rltk::RandomNumberGenerator::seeded(8);
    let mut monsters = vec![
        mk_monster(1, 1, basic_ai(0, false)),
        mk_monster(0, 0, basic_ai(0, true)),
        mk_monster(4, 4, MonsterAI::AttackSpellcaster(MonsterAttackSpellcasterAI {
            distance_to_keep_away: 3,
            routing_options: routing(),
        })),
        mk_monster(4, 0, MonsterAI::Cleric(MonsterClericAI {
            distance_to_keep_away_from_player: 3,
            distance_to_keep_away_from_monsters: 1,
            routing_options: routing(),
        })),
    ];
    let mut basic = MonsterBasicAISystem {};
    basic.run(&mut map, ppos, 9, &mut monsters, &mut rng);
    let mut caster = MonsterAttackSpellcasterAISystem {};
    caster.run(&mut map, ppos, 9, &mut monsters);
    let mut cleric = MonsterClericAISystem {};
    cleric.run(&mut map, ppos, 9, &mut monsters);
    for m in &monsters {
        assert!(!m.can_act);
    }
}

#[test]
fn attack_spellcaster_casts_when_charged_visible_and_in_range() {
    let mut map = open_map(5, 5);
    let ppos = Position { x: 2, y: 2 };
    let mut m = mk_monster(0, 0, MonsterAI::AttackSpellcaster(MonsterAttackSpellcasterAI {
        distance_to_keep_away: 3,
        routing_options: routing(),
    }));
    m.viewshed = full_viewshed(&map);
    m.spells = vec![
        SpellCharges { charges: 0, max_charges: 2 },
        SpellCharges { charges: 1, max_charges: 2 },
    ];
    let mut monsters = vec![m];
    let mut system = MonsterAttackSpellcasterAISystem {};
    system.run(&mut map, ppos, 0, &mut monsters);
    // The first *charged* spell (index 1) is aimed at the target's tile.
    assert_eq!(
        monsters[0].wants_targeted,
        Some(WantsToUseTargeted { thing: 1, target: ppos })
    );
    assert_eq!(monsters[0].pos, Position { x: 0, y: 0 });
}

#[test]
fn attack_spellcaster_melees_when_adjacent_without_charges() {
    let mut map = open_map(5, 5);
    let ppos = Position { x: 2, y: 2 };
    let mut m = mk_monster(1, 1, MonsterAI::AttackSpellcaster(MonsterAttackSpellcasterAI {
        distance_to_keep_away: 3,
        routing_options: routing(),
    }));
    m.viewshed = full_viewshed(&map);
    m.spells = vec![SpellCharges { charges: 0, max_charges: 2 }];
    let mut monsters = vec![m];
    let mut system = MonsterAttackSpellcasterAISystem {};
    system.run(&mut map, ppos, 7, &mut monsters);
    assert_eq!(monsters[0].wants_melee, Some(WantsToMeleeAttack { target: 7 }));
    assert_eq!(monsters[0].wants_targeted, None);
}

#[test]
fn attack_spellcaster_keeps_its_stand_off_distance() {
    // Visible target out of stand-off range and no charges: the caster
    // steps toward the ring at its configured distance.
    let mut map = open_map(7, 7);
    let ppos = Position { x: 6, y: 6 };
    let mut m = mk_monster(0, 0, MonsterAI::AttackSpellcaster(MonsterAttackSpellcasterAI {
        distance_to_keep_away: 3,
        routing_options: routing(),
    }));
    m.viewshed = full_viewshed(&map);
    let mut monsters = vec![m];
    let mut system = MonsterAttackSpellcasterAISystem {};
    system.run(&mut map, ppos, 0, &mut monsters);
    // (3, 3) is the nearest ring tile and is adjacent to nothing closer.
    assert_ne!(monsters[0].pos, Position { x: 0, y: 0 });
}

#[test]
fn cleric_heals_the_first_visible_ally_below_half_health() {
    let mut map = open_map(5, 5);
    let ppos = Position { x: 4, y: 4 };
    let mut cleric = mk_monster(0, 0, MonsterAI::Cleric(MonsterClericAI {
        distance_to_keep_away_from_player: 3,
        distance_to_keep_away_from_monsters: 1,
        routing_options: routing(),
    }));
    cleric.viewshed = full_viewshed(&map);
    cleric.spells = vec![SpellCharges { charges: 1, max_charges: 1 }];
    let mut healthy = mk_monster(2, 0, basic_ai(0, false));
    healthy.can_act = false;
    let mut hurt = mk_monster(2, 2, basic_ai(0, false));
    hurt.stats = CombatStats { hp: 4, max_hp: 10 };
    hurt.can_act = false;
    let mut monsters = vec![cleric, healthy, hurt];
    let mut system = MonsterClericAISystem {};
    system.run(&mut map, ppos, 9, &mut monsters);
    // The hurt ally at (2, 2) is the first below half health.
    assert_eq!(
        monsters[0].wants_targeted,
        Some(WantsToUseTargeted { thing: 0, target: Position { x: 2, y: 2 } })
    );
    assert_eq!(monsters[0].pos, Position { x: 0, y: 0 });
}

#[test]
fn cleric_repositions_around_healthy_allies() {
    let mut map = open_map(7, 7);
    let ppos = Position { x: 6, y: 6 };
    let mut cleric = mk_monster(0, 0, MonsterAI::Cleric(MonsterClericAI {
        distance_to_keep_away_from_player: 3,
        distance_to_keep_away_from_monsters: 2,
        routing_options: routing(),
    }));
    cleric.viewshed = full_viewshed(&map);
    cleric.spells = vec![SpellCharges { charges: 1, max_charges: 1 }];
    let mut ally = mk_monster(3, 3, basic_ai(0, false));
    ally.can_act = false;
    let mut monsters = vec![cleric, ally];
    let mut system = MonsterClericAISystem {};
    system.run(&mut map, ppos, 9, &mut monsters);
    // No ally needs healing and the player is not adjacent, so the cleric
    // takes a buffered step toward the ally's stand-off ring.
    assert_eq!(monsters[0].wants_targeted, None);
    assert_ne!(monsters[0].pos, Position { x: 0, y: 0 });
    let dx = (monsters[0].pos.x - 0).abs();
    let dy = (monsters[0].pos.y - 0).abs();
    assert!(dx <= 1 && dy <= 1, "buffered movement is one king move");
}

#[test]
fn stand_off_selection_descends_toward_the_ring() {
    // Open 5x5 grid, reference point (2, 2), stand-off distance 2: the
    // ring is the border.  From any tile the chosen step never increases
    // the cost-distance to the ring and moves at most one king move.
    let map = open_map(5, 5);
    let reference = Position { x: 2, y: 2 };
    let opts = routing();
    let circle = map.get_l_infinity_circle_around(reference, 2);
    let mut seeds = Vec::new();
    for p in &circle {
        seeds.push(map.xy_idx(p.x, p.y));
    }
    let dist = cost_field(&map, &opts, &seeds);

    // An actor already on the ring at (0, 0) steps onto another zero-cost
    // ring tile, never into the interior.
    let start = Position { x: 0, y: 0 };
    let start_idx = map.xy_idx(0, 0);
    assert_eq!(dist[start_idx], 0);
    let exit = find_lowest_exit(&map, &opts, &dist, start).expect("ring is reachable");
    assert!(dist[exit] <= dist[start_idx]);

    // An actor in the interior strictly reduces its cost-distance.
    let center_idx = map.xy_idx(2, 2);
    assert_eq!(dist[center_idx], 2);
    let step = find_lowest_exit(&map, &opts, &dist, reference).expect("ring is reachable");
    assert!(dist[step] < dist[center_idx]);
    assert_eq!(dist[step], 1);
    let (sx, sy) = map.idx_xy(step);
    assert!((sx - 2).abs() <= 1 && (sy - 2).abs() <= 1);
    assert!(dist[step] < COST_CAP);

    // The composed selection helper agrees: it returns a king-move
    // neighbor of the actor.
    let via_helper = get_position_at_range_from_player(&map, &opts, reference, start, 2)
        .expect("ring is reachable");
    let (hx, hy) = map.idx_xy(via_helper);
    assert!((hx - 0).abs() <= 1 && (hy - 0).abs() <= 1);
}
