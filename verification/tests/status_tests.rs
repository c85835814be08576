use rogue::components::{
    CombatStats, DamageRequest, ElementalDamageKind, Monster, MonsterAI, MonsterBasicAI,
    MovementRoutingOptions, Position, StatusIsBurning, StatusIsFrozen, Viewshed,
};
use rogue::monster_ai_system::MonsterCanActSystem;
use rogue::status_system::{
    get_status_indicators, GameLog, IndicatorColor, LogEvent, StatusSystem,
};

fn basic_ai() -> MonsterAI {
    MonsterAI::Basic(MonsterBasicAI {
        keep_following_turns: 0,
        keep_following_turns_max: 5,
        no_visibility_wander: false,
        routing_options: MovementRoutingOptions {
            avoid_blocked: true,
            avoid_fire: false,
            avoid_chill: false,
        },
    })
}

fn mk_monster(x: i32, y: i32) -> Monster {
    Monster {
        pos: Position { x, y },
        viewshed: Viewshed { visible_tiles: Vec::new(), range: 8, dirty: false },
        ai: basic_ai(),
        stats: CombatStats { hp: 10, max_hp: 10 },
        can_act: false,
        frozen: None,
        burning: None,
        spells: Vec::new(),
        wants_melee: None,
        wants_targeted: None,
        wants_take_damage: Vec::new(),
    }
}

#[test]
fn eligibility_gate_skips_frozen_and_grants_the_rest() {
    let mut monsters = vec![mk_monster(0, 0), mk_monster(1, 0), mk_monster(2, 0)];
    monsters[1].frozen = Some(StatusIsFrozen::new(3));
    let mut gate = MonsterCanActSystem {};
    gate.run(&mut monsters);
    assert!(monsters[0].can_act);
    assert!(!monsters[1].can_act);
    assert!(monsters[2].can_act);
}

#[test]
fn frozen_ticks_down_and_expires_with_a_notification() {
    let mut monsters = vec![mk_monster(0, 0)];
    monsters[0].frozen = Some(StatusIsFrozen::new(2));
    let mut log = GameLog::new();
    let mut system = StatusSystem {};

    system.run(&mut log, &mut monsters);
    assert_eq!(monsters[0].frozen, Some(StatusIsFrozen { remaining_turns: 1 }));
    assert_eq!(log.entries.len(), 0);

    system.run(&mut log, &mut monsters);
    assert_eq!(monsters[0].frozen, None);
    assert_eq!(log.entries, vec![LogEvent::FrozenExpired { entity: 0 }]);
}

#[test]
fn burning_applies_tick_damage_while_active_and_expires() {
    let mut monsters = vec![mk_monster(0, 0)];
    monsters[0].burning = Some(StatusIsBurning::new(2, 3));
    let mut log = GameLog::new();
    let mut system = StatusSystem {};

    // First tick: still active after the decrement, so damage is queued.
    system.run(&mut log, &mut monsters);
    assert_eq!(
        monsters[0].burning,
        Some(StatusIsBurning { remaining_turns: 1, tick_damage: 3 })
    );
    assert_eq!(
        monsters[0].wants_take_damage,
        vec![DamageRequest { amount: 3, kind: ElementalDamageKind::Fire }]
    );

    // Second tick: the decrement reaches zero, so no damage but an expiry.
    system.run(&mut log, &mut monsters);
    assert_eq!(monsters[0].burning, None);
    assert_eq!(monsters[0].wants_take_damage.len(), 1);
    assert_eq!(log.entries, vec![LogEvent::BurningExpired { entity: 0 }]);
}

#[test]
fn expiry_notifications_come_in_entity_order() {
    let mut monsters = vec![mk_monster(0, 0), mk_monster(1, 0)];
    monsters[0].burning = Some(StatusIsBurning::new(1, 2));
    monsters[1].frozen = Some(StatusIsFrozen::new(1));
    let mut log = GameLog::new();
    let mut system = StatusSystem {};
    system.run(&mut log, &mut monsters);
    assert_eq!(
        log.entries,
        vec![
            LogEvent::BurningExpired { entity: 0 },
            LogEvent::FrozenExpired { entity: 1 },
        ]
    );
}

#[test]
fn status_indicators_reflect_current_ailments() {
    let mut m = mk_monster(0, 0);
    assert_eq!(get_status_indicators(&m).len(), 0);

    m.frozen = Some(StatusIsFrozen::new(2));
    m.burning = Some(StatusIsBurning::new(2, 1));
    let glyphs = get_status_indicators(&m);
    assert_eq!(glyphs.len(), 2);
    assert_eq!(glyphs[0].glyph, '\u{2666}');
    assert_eq!(glyphs[0].color, IndicatorColor::LightBlue);
    assert_eq!(glyphs[1].glyph, '\u{2660}');
    assert_eq!(glyphs[1].color, IndicatorColor::Orange);
}
