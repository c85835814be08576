//! The encounter spawner: depth-scaled, weighted selection of monster and
//! item archetypes and the valid map tiles to place them on.  The chosen
//! archetypes are handed back as placement decisions; constructing the
//! concrete entities is the archetype catalog's job, outside this crate.

use vstd::prelude::*;
use crate::map::GameMap;
use crate::random_table::{
    lemma_total_positive_iff, spec_chosen, total_weight, RandomTable,
};
use crate::rng::rng_roll_dice;

verus! {

const MAX_MONSTERS_IN_ROOM: i32 = 4;

const MAX_ITEMS_IN_ROOM: i32 = 2;

const MAX_SPAWN_ATTEMPTS: i32 = 1000;

/// The monster archetypes the spawner can choose.
#[derive(Clone, Copy, PartialEq, Eq, Structural, Debug)]
pub enum MonsterType {
    Nothing,
    Rat,
    Bat,
    GoblinBasic,
    GoblinCleric,
    GoblinEnchanter,
    GoblinFirecaster,
    GoblinChillcaster,
    Orc,
    PinkJelly,
    OrangeJelly,
    BlueJelly,
}

/// The item archetypes the spawner can choose; `None` is the heavily
/// weighted "nothing spawned" outcome.
#[derive(Clone, Copy, PartialEq, Eq, Structural, Debug)]
pub enum ItemType {
    Nothing,
    Turnip,
    Pomegranate,
    HealthPotion,
    RechargingPotion,
    TeleportationPotion,
    FirePotion,
    FreezingPotion,
    Dagger,
    LeatherArmor,
    MagicMissileScroll,
    BlinkScroll,
    FireblastScroll,
    FireballScroll,
    IceblastScroll,
    IcespikeScroll,
}

/// Per-archetype spawn parameters: difficulty score, the depth range the
/// archetype may appear in, and its relative spawn chance.
#[derive(Clone, Copy, PartialEq, Eq, Structural, Debug)]
pub struct MonsterSpawnParameters {
    pub difficulty: i32,
    pub min_depth: i32,
    pub max_depth: i32,
    pub chance: i32,
}

impl MonsterSpawnParameters {
    pub fn new(difficulty: i32, min_depth: i32, max_depth: i32, chance: i32) -> (r:
        MonsterSpawnParameters)
        ensures
            r == (MonsterSpawnParameters { difficulty, min_depth, max_depth, chance }),
    {
        MonsterSpawnParameters { difficulty, min_depth, max_depth, chance }
    }
}

/// The static monster spawn table.
pub open spec fn spec_monster_spawn_table() -> Seq<(MonsterType, MonsterSpawnParameters)> {
    seq![
        (
            MonsterType::Rat,
            MonsterSpawnParameters { difficulty: 1, min_depth: 1, max_depth: 4, chance: 25 },
        ),
        (
            MonsterType::Bat,
            MonsterSpawnParameters { difficulty: 1, min_depth: 1, max_depth: 4, chance: 25 },
        ),
        (
            MonsterType::GoblinBasic,
            MonsterSpawnParameters { difficulty: 2, min_depth: 1, max_depth: 6, chance: 25 },
        ),
        (
            MonsterType::GoblinCleric,
            MonsterSpawnParameters { difficulty: 2, min_depth: 2, max_depth: 8, chance: 20 },
        ),
        (
            MonsterType::GoblinEnchanter,
            MonsterSpawnParameters { difficulty: 2, min_depth: 2, max_depth: 8, chance: 20 },
        ),
        (
            MonsterType::GoblinFirecaster,
            MonsterSpawnParameters { difficulty: 4, min_depth: 3, max_depth: 8, chance: 15 },
        ),
        (
            MonsterType::GoblinChillcaster,
            MonsterSpawnParameters { difficulty: 4, min_depth: 3, max_depth: 8, chance: 15 },
        ),
        (
            MonsterType::PinkJelly,
            MonsterSpawnParameters { difficulty: 3, min_depth: 4, max_depth: 10, chance: 15 },
        ),
        (
            MonsterType::OrangeJelly,
            MonsterSpawnParameters { difficulty: 4, min_depth: 4, max_depth: 12, chance: 10 },
        ),
        (
            MonsterType::BlueJelly,
            MonsterSpawnParameters { difficulty: 4, min_depth: 4, max_depth: 12, chance: 10 },
        ),
        (
            MonsterType::Orc,
            MonsterSpawnParameters { difficulty: 4, min_depth: 5, max_depth: 12, chance: 25 },
        ),
    ]
}

/// Builds the static monster spawn table: archetypes with their difficulty,
/// valid depth range and relative chance.
pub fn get_monster_spawn_table() -> (table: Vec<(MonsterType, MonsterSpawnParameters)>)
    ensures
        table@ == spec_monster_spawn_table(),
{
    let mut table: Vec<(MonsterType, MonsterSpawnParameters)> = Vec::new();
    table.push((MonsterType::Rat, MonsterSpawnParameters::new(1, 1, 4, 25)));
    table.push((MonsterType::Bat, MonsterSpawnParameters::new(1, 1, 4, 25)));
    table.push((MonsterType::GoblinBasic, MonsterSpawnParameters::new(2, 1, 6, 25)));
    table.push((MonsterType::GoblinCleric, MonsterSpawnParameters::new(2, 2, 8, 20)));
    table.push((MonsterType::GoblinEnchanter, MonsterSpawnParameters::new(2, 2, 8, 20)));
    table.push((MonsterType::GoblinFirecaster, MonsterSpawnParameters::new(4, 3, 8, 15)));
    table.push((MonsterType::GoblinChillcaster, MonsterSpawnParameters::new(4, 3, 8, 15)));
    table.push((MonsterType::PinkJelly, MonsterSpawnParameters::new(3, 4, 10, 15)));
    table.push((MonsterType::OrangeJelly, MonsterSpawnParameters::new(4, 4, 12, 10)));
    table.push((MonsterType::BlueJelly, MonsterSpawnParameters::new(4, 4, 12, 10)));
    table.push((MonsterType::Orc, MonsterSpawnParameters::new(4, 5, 12, 25)));
    proof {
        assert(table@ =~= spec_monster_spawn_table());
    }
    table
}

/// Archetype `k` of a spawn table participates at this depth.
pub open spec fn entry_valid_at_depth(
    table: Seq<(MonsterType, MonsterSpawnParameters)>,
    k: int,
    depth: int,
) -> bool {
    table[k].1.min_depth <= depth <= table[k].1.max_depth
}

/// Archetype `k` of the static spawn table participates at this depth.
pub open spec fn valid_at_depth(k: int, depth: int) -> bool {
    entry_valid_at_depth(spec_monster_spawn_table(), k, depth)
}

/// The difficulty a spawn table assigns to an archetype: that of its first
/// entry for the archetype, zero when the archetype is absent.
pub open spec fn table_difficulty(
    table: Seq<(MonsterType, MonsterSpawnParameters)>,
    t: MonsterType,
) -> int
    decreases table.len(),
{
    if table.len() == 0 {
        0
    } else if table[0].0 == t {
        table[0].1.difficulty as int
    } else {
        table_difficulty(table.drop_first(), t)
    }
}

/// A table with difficulties in range assigns every archetype a difficulty
/// in range.
pub proof fn lemma_table_difficulty_bounds(
    table: Seq<(MonsterType, MonsterSpawnParameters)>,
    t: MonsterType,
)
    requires
        forall|k: int| 0 <= k < table.len() ==> 0 <= (#[trigger] table[k]).1.difficulty <= 1000,
    ensures
        0 <= table_difficulty(table, t) <= 1000,
    decreases table.len(),
{
    if table.len() > 0 && table[0].0 != t {
        let rest = table.drop_first();
        assert(forall|k: int| 0 <= k < rest.len() ==> rest[k] == table[k + 1]);
        lemma_table_difficulty_bounds(rest, t);
    }
}

/// For an archetype present in the table, the looked-up difficulty is some
/// entry's difficulty.
pub proof fn lemma_table_difficulty_present(
    table: Seq<(MonsterType, MonsterSpawnParameters)>,
    t: MonsterType,
)
    requires
        exists|k: int| 0 <= k < table.len() && (#[trigger] table[k]).0 == t,
    ensures
        exists|k: int|
            0 <= k < table.len() && (#[trigger] table[k]).0 == t && table_difficulty(table, t)
                == table[k].1.difficulty,
    decreases table.len(),
{
    if table.len() > 0 {
        if table[0].0 == t {
            assert(table[0].0 == t && table_difficulty(table, t) == table[0].1.difficulty);
        } else {
            let rest = table.drop_first();
            let k0 = choose|k0: int| 0 <= k0 < table.len() && (#[trigger] table[k0]).0 == t;
            assert(rest[k0 - 1] == table[k0]);
            lemma_table_difficulty_present(rest, t);
            let kr = choose|kr: int|
                0 <= kr < rest.len() && (#[trigger] rest[kr]).0 == t && table_difficulty(rest, t)
                    == rest[kr].1.difficulty;
            assert(table[kr + 1] == rest[kr]);
        }
    }
}

/// Looks up an archetype's difficulty in a spawn table.
#[verifier::loop_isolation(false)]
fn lookup_difficulty(table: &Vec<(MonsterType, MonsterSpawnParameters)>, t: MonsterType) -> (d:
    i32)
    requires
        forall|k: int| 0 <= k < table@.len() ==> 0 <= (#[trigger] table@[k]).1.difficulty <= 1000,
    ensures
        d == table_difficulty(table@, t),
        0 <= d <= 1000,
{
    proof {
        assert(table@.skip(0) =~= table@);
    }
    let mut k: usize = 0;
    while k < table.len()
        invariant
            0 <= k <= table@.len(),
            table_difficulty(table@, t) == table_difficulty(table@.skip(k as int), t),
        decreases table@.len() - k,
    {
        proof {
            assert(table@.skip(k as int)[0] == table@[k as int]);
        }
        if table[k].0 == t {
            return table[k].1.difficulty;
        }
        proof {
            assert(table@.skip(k as int).drop_first() =~= table@.skip(k + 1));
        }
        k += 1;
    }
    proof {
        assert(table@.skip(k as int).len() == 0);
    }
    0
}

/// Rolls a depth-filtered spawn table: only archetypes whose depth range
/// contains `depth` participate, weighted by their spawn chance.  No
/// archetype is drawn exactly when no archetype participates at this depth.
#[verifier::loop_isolation(false)]
pub fn roll_spawn_table(
    rng: &mut rltk::RandomNumberGenerator,
    depth: i32,
    spawn_table: &Vec<(MonsterType, MonsterSpawnParameters)>,
) -> (r: Option<MonsterType>)
    requires
        forall|k: int| 0 <= k < spawn_table@.len() ==> 0 <= (#[trigger] spawn_table@[k]).1.chance
            <= 100,
        spawn_table@.len() <= 1000,
    ensures
        r is Some <==> exists|k: int|
            0 <= k < spawn_table@.len() && #[trigger] entry_valid_at_depth(spawn_table@, k, depth as int)
                && spawn_table@[k].1.chance > 0,
        r matches Some(t) ==> exists|k: int|
            0 <= k < spawn_table@.len() && #[trigger] entry_valid_at_depth(spawn_table@, k, depth as int)
                && spawn_table@[k].0 == t && spawn_table@[k].1.chance
                > 0,
{
    let mut rtable: RandomTable<MonsterType> = RandomTable::new();
    let mut k: usize = 0;
    while k < spawn_table.len()
        invariant
            0 <= k <= spawn_table@.len(),
            rtable.wf(),
            total_weight(rtable.entries@) <= 100 * k,
            forall|e: int|
                0 <= e < rtable.entries@.len() ==> exists|j: int|
                    0 <= j < k && #[trigger] entry_valid_at_depth(spawn_table@, j, depth as int)
                        && #[trigger] rtable.entries@[e] == (
                    spawn_table@[j].0,
                    spawn_table@[j].1.chance,
                    ),
            forall|j: int|
                0 <= j < k && #[trigger] entry_valid_at_depth(spawn_table@, j, depth as int) ==> exists|e: int|
                    0 <= e < rtable.entries@.len() && #[trigger] rtable.entries@[e] == (
                    spawn_table@[j].0,
                    spawn_table@[j].1.chance,
                    ),
        decreases spawn_table@.len() - k,
    {
        let (monster_type, spawn_parameters) = spawn_table[k];
        if spawn_parameters.min_depth <= depth && depth <= spawn_parameters.max_depth {
            proof {
                assert(0 <= spawn_parameters.chance <= 100);
            }
            let ghost r0 = rtable.entries@;
            rtable = rtable.insert(monster_type, spawn_parameters.chance);
            proof {
                assert(entry_valid_at_depth(spawn_table@, k as int, depth as int));
                assert(rtable.entries@[rtable.entries@.len() - 1] == (
                    spawn_table@[k as int].0,
                    spawn_table@[k as int].1.chance,
                ));
                assert forall|j: int|
                    0 <= j < k + 1 && #[trigger] entry_valid_at_depth(spawn_table@, j, depth as int) implies exists|
                    e: int,
                |
                    0 <= e < rtable.entries@.len() && #[trigger] rtable.entries@[e] == (
                    spawn_table@[j].0,
                    spawn_table@[j].1.chance,
                    ) by {
                    if j < k {
                        let e = choose|e: int|
                            0 <= e < r0.len() && #[trigger] r0[e] == (
                            spawn_table@[j].0,
                            spawn_table@[j].1.chance,
                            );
                        assert(rtable.entries@[e] == r0[e]);
                    } else {
                        assert(rtable.entries@[rtable.entries@.len() - 1] == (
                            spawn_table@[j].0,
                            spawn_table@[j].1.chance,
                        ));
                    }
                }
            }
        }
        k += 1;
    }
    let r = rtable.roll(rng);
    proof {
        lemma_total_positive_iff(rtable.entries@);
        if r is Some {
            let e = choose|e: int|
                0 <= e < rtable.entries@.len() && (#[trigger] rtable.entries@[e]).0 == r->0
                    && rtable.entries@[e].1 > 0;
            assert(exists|j: int|
                0 <= j < spawn_table@.len() && #[trigger] entry_valid_at_depth(spawn_table@, j, depth as int)
                    && rtable.entries@[e] == (
                spawn_table@[j].0,
                spawn_table@[j].1.chance,
                ));
        } else {
            assert(total_weight(rtable.entries@) == 0);
            assert forall|j: int|
                0 <= j < spawn_table@.len() && #[trigger] entry_valid_at_depth(spawn_table@, j, depth as int)
                implies spawn_table@[j].1.chance <= 0 by {
                let e = choose|e: int|
                    0 <= e < rtable.entries@.len() && #[trigger] rtable.entries@[e] == (
                    spawn_table@[j].0,
                    spawn_table@[j].1.chance,
                    );
                assert(rtable.entries@[e].1 <= 0);
            }
        }
    }
    r
}


/// Rolls the static depth-filtered monster table.
pub fn spawn_random_monster(rng: &mut rltk::RandomNumberGenerator, depth: i32) -> (r: Option<
    MonsterType,
>)
    ensures
        r is Some <==> exists|k: int|
            0 <= k < spec_monster_spawn_table().len() && #[trigger] valid_at_depth(
                k,
                depth as int,
            ) && spec_monster_spawn_table()[k].1.chance > 0,
        r matches Some(t) ==> exists|k: int|
            0 <= k < spec_monster_spawn_table().len() && #[trigger] valid_at_depth(
                k,
                depth as int,
            ) && spec_monster_spawn_table()[k].0 == t && spec_monster_spawn_table()[k].1.chance
                > 0,
{
    let spawn_table = get_monster_spawn_table();
    proof {
        lemma_static_table_in_range();
    }
    let r = roll_spawn_table(rng, depth, &spawn_table);
    proof {
        if r is Some {
            let k = choose|k: int|
                0 <= k < spawn_table@.len() && #[trigger] entry_valid_at_depth(
                    spawn_table@,
                    k,
                    depth as int,
                ) && spawn_table@[k].0 == r->0 && spawn_table@[k].1.chance > 0;
            assert(valid_at_depth(k, depth as int));
            assert(spec_monster_spawn_table()[k].0 == r->0 && spec_monster_spawn_table()[k].1.chance > 0);
        }
        if exists|k: int|
            0 <= k < spec_monster_spawn_table().len() && #[trigger] valid_at_depth(
                k,
                depth as int,
            ) && spec_monster_spawn_table()[k].1.chance > 0 {
            let k = choose|k: int|
                0 <= k < spec_monster_spawn_table().len() && #[trigger] valid_at_depth(
                    k,
                    depth as int,
                ) && spec_monster_spawn_table()[k].1.chance > 0;
            assert(entry_valid_at_depth(spawn_table@, k, depth as int));
            assert(r is Some);
        }
    }
    r
}

/// The static table's chances and difficulties are within the supported
/// ranges.
pub proof fn lemma_static_table_in_range()
    ensures
        forall|k: int|
            0 <= k < spec_monster_spawn_table().len() ==> 0 <= (#[trigger] spec_monster_spawn_table()[k]).1.chance
                <= 100,
        forall|k: int|
            0 <= k < spec_monster_spawn_table().len() ==> 0 <= (#[trigger] spec_monster_spawn_table()[k]).1.difficulty
                <= 1000,
        spec_monster_spawn_table().len() == 11,
{
    assert forall|k: int| 0 <= k < spec_monster_spawn_table().len() implies 0 <= (
    #[trigger] spec_monster_spawn_table()[k]).1.chance <= 100 && 0 <= spec_monster_spawn_table()[k].1.difficulty
        <= 1000 by {
        if k == 0 {
        } else if k == 1 {
        } else if k == 2 {
        } else if k == 3 {
        } else if k == 4 {
        } else if k == 5 {
        } else if k == 6 {
        } else if k == 7 {
        } else if k == 8 {
        } else if k == 9 {
        } else {
            assert(k == 10);
        }
    }
}

/// The depth-scaled item table, including the heavily weighted "nothing
/// spawned" outcome.
pub open spec fn spec_item_table(depth: int) -> Seq<(ItemType, i32)> {
    seq![
        (ItemType::Turnip, (4 + depth) as i32),
        (ItemType::Pomegranate, depth as i32),
        (ItemType::HealthPotion, (4 + depth) as i32),
        (ItemType::RechargingPotion, depth as i32),
        (ItemType::TeleportationPotion, (2 + depth) as i32),
        (ItemType::FirePotion, depth as i32),
        (ItemType::FreezingPotion, depth as i32),
        (ItemType::Dagger, depth as i32),
        (ItemType::LeatherArmor, depth as i32),
        (ItemType::MagicMissileScroll, (1 + depth) as i32),
        (ItemType::BlinkScroll, depth as i32),
        (ItemType::FireblastScroll, depth as i32),
        (ItemType::FireballScroll, depth as i32),
        (ItemType::IceblastScroll, depth as i32),
        (ItemType::IcespikeScroll, depth as i32),
        (ItemType::Nothing, 75),
    ]
}

/// Rolls the depth-weighted item table.  The table always carries positive
/// mass (the "nothing" outcome alone weighs 75), so an outcome — possibly
/// `ItemType::Nothing` — is always drawn.
pub fn spawn_random_item(rng: &mut rltk::RandomNumberGenerator, depth: i32) -> (r: Option<
    ItemType,
>)
    requires
        1 <= depth <= 100000000,
    ensures
        r is Some,
        r matches Some(t) ==> exists|d: int|
            1 <= d <= total_weight(spec_item_table(depth as int)) && t == spec_chosen(
                spec_item_table(depth as int),
                d,
            ),
{
    let table: RandomTable<ItemType> = RandomTable::new();
    let table = table.insert(ItemType::Turnip, 4 + depth);
    let table = table.insert(ItemType::Pomegranate, depth);
    let table = table.insert(ItemType::HealthPotion, 4 + depth);
    let table = table.insert(ItemType::RechargingPotion, depth);
    let table = table.insert(ItemType::TeleportationPotion, 2 + depth);
    let table = table.insert(ItemType::FirePotion, depth);
    let table = table.insert(ItemType::FreezingPotion, depth);
    let table = table.insert(ItemType::Dagger, depth);
    let table = table.insert(ItemType::LeatherArmor, depth);
    let table = table.insert(ItemType::MagicMissileScroll, 1 + depth);
    let table = table.insert(ItemType::BlinkScroll, depth);
    let table = table.insert(ItemType::FireblastScroll, depth);
    let table = table.insert(ItemType::FireballScroll, depth);
    let table = table.insert(ItemType::IceblastScroll, depth);
    let table = table.insert(ItemType::IcespikeScroll, depth);
    let table = table.insert(ItemType::Nothing, 75);
    proof {
        assert(table.entries@ =~= spec_item_table(depth as int));
        assert(table.entries@[table.entries@.len() - 1].1 > 0);
        lemma_total_positive_iff(table.entries@);
    }
    table.roll(rng)
}

/// Every tile of the map is blocked: no spawn point can exist.
pub open spec fn spawn_all_blocked(m: GameMap) -> bool {
    forall|i: int| 0 <= i < m.area() ==> #[trigger] m.blocked@[i]
}

/// Every tile of the map is open and spawn-eligible.
pub open spec fn spawn_all_open(m: GameMap) -> bool {
    forall|i: int| 0 <= i < m.area() ==> !(#[trigger] m.blocked@[i]) && m.ok_to_spawn@[i]
}

/// Some archetype participates at this depth with a positive chance.
pub open spec fn table_has_valid_choice(
    table: Seq<(MonsterType, MonsterSpawnParameters)>,
    depth: int,
) -> bool {
    exists|k: int|
        0 <= k < table.len() && #[trigger] entry_valid_at_depth(table, k, depth) && table[k].1.chance
            > 0
}

/// Every table entry's difficulty reaches at least the given bound.
pub open spec fn table_difficulties_at_least(
    table: Seq<(MonsterType, MonsterSpawnParameters)>,
    bound: int,
) -> bool {
    forall|k: int| 0 <= k < table.len() ==> (#[trigger] table[k]).1.difficulty >= bound
}

/// What holds of every monster placement: an in-bounds tile that was
/// spawn-eligible before the pass and is no longer, and an archetype drawn
/// from the depth-filtered table with a positive chance.
pub open spec fn monster_choice_ok(
    table: Seq<(MonsterType, MonsterSpawnParameters)>,
    mpre: GameMap,
    mpost: GameMap,
    depth: int,
    ch: MonsterSpawnChoice,
) -> bool {
    &&& mpost.in_bounds(ch.x as int, ch.y as int)
    &&& !mpost.ok_to_spawn@[mpost.spec_idx(ch.x as int, ch.y as int)]
    &&& mpre.ok_to_spawn@[mpre.spec_idx(ch.x as int, ch.y as int)]
    &&& !mpre.blocked@[mpre.spec_idx(ch.x as int, ch.y as int)]
    &&& (exists|k: int|
        0 <= k < table.len() && #[trigger] entry_valid_at_depth(table, k, depth) && table[k].0
            == ch.monster_type && table[k].1.chance > 0)
}

/// What holds of every item placement: an in-bounds tile whose spawn
/// eligibility was consumed, and a real item drawn from the depth-weighted
/// table.
pub open spec fn item_choice_ok(
    mpre: GameMap,
    region: Seq<usize>,
    mpost: GameMap,
    depth: int,
    ch: ItemSpawnChoice,
) -> bool {
    &&& mpost.in_bounds(ch.x as int, ch.y as int)
    &&& !mpost.ok_to_spawn@[mpost.spec_idx(ch.x as int, ch.y as int)]
    &&& mpre.ok_to_spawn@[mpre.spec_idx(ch.x as int, ch.y as int)]
    &&& region.contains((mpost.spec_idx(ch.x as int, ch.y as int)) as usize)
    &&& !(ch.item_type is Nothing)
    &&& (exists|d: int|
        1 <= d <= total_weight(spec_item_table(depth)) && ch.item_type == spec_chosen(
            spec_item_table(depth),
            d,
        ))
}

/// Placement decision for one spawned monster.
#[derive(Clone, Copy, PartialEq, Eq, Structural, Debug)]
pub struct MonsterSpawnChoice {
    pub monster_type: MonsterType,
    pub x: i32,
    pub y: i32,
}

/// Placement decision for one spawned item.
#[derive(Clone, Copy, PartialEq, Eq, Structural, Debug)]
pub struct ItemSpawnChoice {
    pub item_type: ItemType,
    pub x: i32,
    pub y: i32,
}

/// The fatal condition of the monster population pass: no eligible spawn
/// point could be found.  The caller aborts on it; it indicates a broken
/// map, not a recoverable state.
#[derive(Clone, Copy, PartialEq, Eq, Structural, Debug)]
pub enum SpawnError {
    NoSpawnPoint,
    /// The attempt budget ran out before the accumulated difficulty reached
    /// the quota (for instance when no archetype is valid at the depth, a
    /// state in which the pass could otherwise never terminate).
    QuotaUnreached,
}

/// The difficulty quota for a depth: a base value plus a depth-scaled
/// increment.
pub open spec fn spawn_quota(depth: int) -> int {
    5 + (2 * depth) / 5
}

/// Total table-assigned difficulty of a list of placements.
pub open spec fn sum_table_difficulty(
    table: Seq<(MonsterType, MonsterSpawnParameters)>,
    cs: Seq<MonsterSpawnChoice>,
) -> int
    decreases cs.len(),
{
    if cs.len() == 0 {
        0
    } else {
        sum_table_difficulty(table, cs.drop_last()) + table_difficulty(
            table,
            cs.last().monster_type,
        )
    }
}

/// Difficulty prefix sums grow with the prefix (difficulties are never
/// negative).
pub proof fn lemma_sum_difficulty_take_mono(
    table: Seq<(MonsterType, MonsterSpawnParameters)>,
    cs: Seq<MonsterSpawnChoice>,
    p: int,
    q: int,
)
    requires
        0 <= p <= q <= cs.len(),
        forall|k: int| 0 <= k < table.len() ==> 0 <= (#[trigger] table[k]).1.difficulty <= 1000,
    ensures
        sum_table_difficulty(table, cs.take(p)) <= sum_table_difficulty(table, cs.take(q)),
    decreases q - p,
{
    if p < q {
        lemma_sum_difficulty_take_mono(table, cs, p, q - 1);
        assert(cs.take(q).drop_last() =~= cs.take(q - 1));
        lemma_table_difficulty_bounds(table, cs[q - 1].monster_type);
        assert(sum_table_difficulty(table, cs.take(q)) == sum_table_difficulty(
            table,
            cs.take(q - 1),
        ) + table_difficulty(table, cs[q - 1].monster_type));
    }
}

/// The core of the monster population pass, over an arbitrary spawn table
/// and quota: repeatedly picks a random unblocked,
/// spawn-eligible tile, rolls the depth-filtered table for an archetype and
/// consumes the tile's spawn eligibility, until the accumulated difficulty
/// of the chosen archetypes reaches the quota.  An empty draw
/// consumes the tile but adds no difficulty.  Failing to find an eligible
/// point at all is the fatal `NoSpawnPoint` condition.
#[verifier::loop_isolation(false)]
pub fn spawn_monsters_from_table(
    map: &mut GameMap,
    rng: &mut rltk::RandomNumberGenerator,
    depth: i32,
    spawn_table: &Vec<(MonsterType, MonsterSpawnParameters)>,
    quota: i32,
) -> (r: Result<Vec<MonsterSpawnChoice>, SpawnError>)
    requires
        old(map).wf(),
        1 <= quota <= 1000000,
        spawn_table@.len() <= 1000,
        forall|k: int| 0 <= k < spawn_table@.len() ==> 0 <= (#[trigger] spawn_table@[k]).1.chance
            <= 100,
        forall|k: int| 0 <= k < spawn_table@.len() ==> 0 <= (#[trigger] spawn_table@[k]).1.difficulty
            <= 1000,
    ensures
        final(map).wf(),
        *final(map) == (GameMap { ok_to_spawn: final(map).ok_to_spawn, ..*old(map) }),
        forall|i: int|
            0 <= i < final(map).ok_to_spawn@.len() ==> (#[trigger] final(map).ok_to_spawn@[i]
                ==> old(map).ok_to_spawn@[i]),
        r matches Ok(v) ==> {
            &&& sum_table_difficulty(spawn_table@, v@) >= quota
            &&& forall|p: int|
                0 <= p < v@.len() ==> sum_table_difficulty(spawn_table@, #[trigger] v@.take(p)) < quota
            &&& forall|c: int|
                0 <= c < v@.len() ==> monster_choice_ok(
                    spawn_table@,
                    *old(map),
                    *final(map),
                    depth as int,
                    #[trigger] v@[c],
                )
            &&& forall|c1: int, c2: int|
                #![trigger v@[c1], v@[c2]]
                0 <= c1 < c2 < v@.len() ==> !(v@[c1].x == v@[c2].x && v@[c1].y == v@[c2].y)
        },
        spawn_all_blocked(*old(map)) ==> (r matches Err(e) && e == SpawnError::NoSpawnPoint),
        (spawn_all_open(*old(map)) && table_has_valid_choice(spawn_table@, depth as int)
            && table_difficulties_at_least(spawn_table@, quota as int)) ==> r is Ok,
{
    let ghost hyp_blocked = spawn_all_blocked(*old(map));
    let ghost hyp_easy = spawn_all_open(*old(map)) && table_has_valid_choice(
        spawn_table@,
        depth as int,
    ) && table_difficulties_at_least(spawn_table@, quota as int);
    let mut monster_seen_difficulty: i32 = 0;
    let mut choices: Vec<MonsterSpawnChoice> = Vec::new();
    let mut attempts: i32 = 0;
    while attempts < MAX_SPAWN_ATTEMPTS
        invariant
            map.wf(),
            *map == (GameMap { ok_to_spawn: map.ok_to_spawn, ..*old(map) }),
            forall|i: int|
                0 <= i < map.ok_to_spawn@.len() ==> (#[trigger] map.ok_to_spawn@[i] ==> old(
                    map,
                ).ok_to_spawn@[i]),
            0 <= monster_seen_difficulty < quota,
            monster_seen_difficulty == sum_table_difficulty(spawn_table@, choices@),
            forall|c: int|
                0 <= c < choices@.len() ==> monster_choice_ok(
                    spawn_table@,
                    *old(map),
                    *map,
                    depth as int,
                    #[trigger] choices@[c],
                ),
            forall|c1: int, c2: int|
                #![trigger choices@[c1], choices@[c2]]
                0 <= c1 < c2 < choices@.len() ==> !(choices@[c1].x == choices@[c2].x
                    && choices@[c1].y == choices@[c2].y),
            0 <= attempts,
            attempts == 0 ==> map.ok_to_spawn@ == old(map).ok_to_spawn@,
            attempts == 0 || (!hyp_blocked && !hyp_easy),
        decreases MAX_SPAWN_ATTEMPTS - attempts,
    {
        let pt = map.random_unblocked_point(100, rng);
        let (x, y) = match pt {
            Some(p) => p,
            None => {
                proof {
                    if hyp_easy {
                        assert forall|ii: int| 0 <= ii < map.area() implies !(
                        #[trigger] map.blocked@[ii]) by {
                            assert(!old(map).blocked@[ii]);
                        }
                        assert(false);
                    }
                }
                return Err(SpawnError::NoSpawnPoint);
            },
        };
        proof {
            assert(!map.blocked@[map.spec_idx(x as int, y as int)]);
            assert(!hyp_blocked) by {
                map.lemma_idx_bounds(x as int, y as int);
            }
        }
        let idx = map.xy_idx(x, y);
        let ghost map_iter0 = *map;
        if map.ok_to_spawn[idx] {
            proof {
                assert(old(map).ok_to_spawn@[idx as int]);
            }
            map.ok_to_spawn[idx] = false;
            proof {
                assert forall|xx: int, yy: int| map.in_bounds(xx, yy) implies 0 <= map.spec_idx(
                    xx,
                    yy,
                ) < map.area() by {
                    map.lemma_idx_bounds(xx, yy);
                }
                assert forall|c: int| 0 <= c < choices@.len() implies monster_choice_ok(
                    spawn_table@,
                    *old(map),
                    *map,
                    depth as int,
                    #[trigger] choices@[c],
                ) by {
                    assert(monster_choice_ok(
                        spawn_table@,
                        *old(map),
                        map_iter0,
                        depth as int,
                        choices@[c],
                    ));
                    let t = map_iter0.spec_idx(choices@[c].x as int, choices@[c].y as int);
                    map_iter0.lemma_idx_bounds(choices@[c].x as int, choices@[c].y as int);
                    assert(map.ok_to_spawn@ == map_iter0.ok_to_spawn@.update(idx as int, false));
                    assert(map.ok_to_spawn@[t] == false);
                    assert(map.spec_idx(choices@[c].x as int, choices@[c].y as int) == t);
                }
            }
            let monster_type = roll_spawn_table(rng, depth, spawn_table);
            proof {
                if attempts == 0 && hyp_easy {
                    assert(monster_type is Some);
                }
            }
            if let Some(t) = monster_type {
                let monster_difficulty_score = lookup_difficulty(spawn_table, t);
                let ghost cs0 = choices@;
                let ch = MonsterSpawnChoice { monster_type: t, x, y };
                choices.push(ch);
                proof {
                    assert(choices@.drop_last() =~= cs0);
                    assert forall|c1: int, c2: int|
                        #![trigger choices@[c1], choices@[c2]]
                        0 <= c1 < c2 < choices@.len() implies !(choices@[c1].x == choices@[c2].x
                        && choices@[c1].y == choices@[c2].y) by {
                        if c2 == choices@.len() - 1 {
                            assert(choices@[c1] == cs0[c1]);
                            if choices@[c1].x == x && choices@[c1].y == y {
                                assert(!map_iter0.ok_to_spawn@[map_iter0.spec_idx(
                                    x as int,
                                    y as int,
                                )]);
                            }
                        } else {
                            assert(choices@[c1] == cs0[c1] && choices@[c2] == cs0[c2]);
                        }
                    }
                    assert forall|c: int| 0 <= c < choices@.len() implies monster_choice_ok(
                        spawn_table@,
                        *old(map),
                        *map,
                        depth as int,
                        #[trigger] choices@[c],
                    ) by {
                        if c < choices@.len() - 1 {
                            assert(choices@[c] == cs0[c]);
                            assert(monster_choice_ok(
                                spawn_table@,
                                *old(map),
                                *map,
                                depth as int,
                                cs0[c],
                            ));
                        } else {
                            assert(choices@[c] == ch);
                        }
                    }
                }
                monster_seen_difficulty = monster_seen_difficulty + monster_difficulty_score;
                if monster_seen_difficulty >= quota {
                    proof {
                        assert(choices@.take(choices@.len() - 1) =~= cs0);
                        assert(forall|c: int|
                            0 <= c < choices@.len() ==> monster_choice_ok(
                                spawn_table@,
                                *old(map),
                                *map,
                                depth as int,
                                #[trigger] choices@[c],
                            ));
                        assert forall|p: int|
                            0 <= p < choices@.len() implies sum_table_difficulty(
                            spawn_table@,
                            #[trigger] choices@.take(p),
                        ) < quota by {
                            lemma_sum_difficulty_take_mono(
                                spawn_table@,
                                choices@,
                                p,
                                choices@.len() - 1,
                            );
                        }
                    }
                    return Ok(choices);
                }
                proof {
                    if attempts == 0 && hyp_easy {
                        lemma_table_difficulty_present(spawn_table@, t);
                        assert(false);
                    }
                }
            }
        } else {
            proof {
                if attempts == 0 && hyp_easy {
                    map.lemma_idx_bounds(x as int, y as int);
                    assert(old(map).ok_to_spawn@[idx as int]);
                    assert(false);
                }
            }
        }
        attempts += 1;
    }
    proof {
        assert(attempts >= MAX_SPAWN_ATTEMPTS);
        assert(!hyp_blocked && !hyp_easy);
    }
    Err(SpawnError::QuotaUnreached)
}


/// Spawner quota law: when every monster the pass placed is worth exactly
/// the quota, the pass that met its quota placed exactly one monster — the
/// loop stops at the first draw that reaches the quota.
pub proof fn lemma_single_draw_meets_quota(
    table: Seq<(MonsterType, MonsterSpawnParameters)>,
    v: Seq<MonsterSpawnChoice>,
    quota: int,
)
    requires
        1 <= quota,
        forall|c: int|
            0 <= c < v.len() ==> table_difficulty(table, (#[trigger] v[c]).monster_type) == quota,
        sum_table_difficulty(table, v) >= quota,
        forall|p: int| 0 <= p < v.len() ==> sum_table_difficulty(table, #[trigger] v.take(p))
            < quota,
    ensures
        v.len() == 1,
{
    if v.len() == 0 {
        assert(sum_table_difficulty(table, v) == 0);
    }
    if v.len() >= 2 {
        assert(v.take(1).drop_last() =~= v.take(0));
        assert(v.take(0).len() == 0);
        assert(v.take(1).last() == v[0]);
        assert(sum_table_difficulty(table, v.take(1)) == quota);
    }
}

/// The monster population pass at a given dungeon depth: the difficulty
/// quota is the depth-scaled base value and the archetypes come from the
/// static spawn table.
pub fn spawn_monsters(map: &mut GameMap, rng: &mut rltk::RandomNumberGenerator, depth: i32) -> (r:
    Result<Vec<MonsterSpawnChoice>, SpawnError>)
    requires
        old(map).wf(),
        1 <= depth <= 1000000,
    ensures
        final(map).wf(),
        *final(map) == (GameMap { ok_to_spawn: final(map).ok_to_spawn, ..*old(map) }),
        forall|i: int|
            0 <= i < final(map).ok_to_spawn@.len() ==> (#[trigger] final(map).ok_to_spawn@[i]
                ==> old(map).ok_to_spawn@[i]),
        r matches Ok(v) ==> {
            &&& sum_table_difficulty(spec_monster_spawn_table(), v@) >= spawn_quota(depth as int)
            &&& forall|p: int|
                0 <= p < v@.len() ==> sum_table_difficulty(
                    spec_monster_spawn_table(),
                    #[trigger] v@.take(p),
                ) < spawn_quota(depth as int)
            &&& forall|c: int|
                0 <= c < v@.len() ==> monster_choice_ok(
                    spec_monster_spawn_table(),
                    *old(map),
                    *final(map),
                    depth as int,
                    #[trigger] v@[c],
                )
            &&& forall|c1: int, c2: int|
                #![trigger v@[c1], v@[c2]]
                0 <= c1 < c2 < v@.len() ==> !(v@[c1].x == v@[c2].x && v@[c1].y == v@[c2].y)
        },
        spawn_all_blocked(*old(map)) ==> (r matches Err(e) && e == SpawnError::NoSpawnPoint),
{
    let quota: i32 = 5 + (2 * depth) / 5;
    let spawn_table = get_monster_spawn_table();
    proof {
        lemma_static_table_in_range();
    }
    spawn_monsters_from_table(map, rng, depth, &spawn_table, quota)
}

/// Every element of `slots` is a member of `region`.
pub open spec fn slots_from_region(region: Seq<usize>, slots: Seq<usize>) -> bool {
    forall|j: int| #![trigger slots[j]] 0 <= j < slots.len() ==> region.contains(slots[j])
}

/// Draws monster and item slots from the candidate region without
/// replacement: every drawn slot is a member of the region, and at most as
/// many item slots are drawn as the region holds.  The draw pool holds
/// indices into the region, so each drawn slot names its region entry.
#[verifier::loop_isolation(false)]
fn draw_spawn_slots(
    rng: &mut rltk::RandomNumberGenerator,
    region: &Vec<usize>,
    num_monsters: i32,
    num_items: i32,
) -> (r: (Vec<usize>, Vec<usize>))
    requires
        1 <= num_monsters,
        0 <= num_items,
        num_monsters + num_items <= 0x7fff_ffff,
        1 <= region@.len() <= 1000000,
    ensures
        slots_from_region(region@, r.1@),
        r.1@.len() <= region@.len(),
{
    let mut pool: Vec<usize> = Vec::new();
    let mut i: usize = 0;
    while i < region.len()
        invariant
            pool@.len() == i <= region@.len(),
            forall|j: int| 0 <= j < pool@.len() ==> (#[trigger] pool@[j]) < region@.len(),
        decreases region@.len() - i,
    {
        pool.push(i);
        i += 1;
    }
    let total = num_monsters + num_items;
    let mut monster_spawn_points: Vec<usize> = Vec::new();
    let mut item_spawn_points: Vec<usize> = Vec::new();
    let mut n: i32 = 0;
    while n < total && pool.len() > 0
        invariant
            0 <= n,
            pool@.len() <= 1000000,
            forall|j: int| 0 <= j < pool@.len() ==> (#[trigger] pool@[j]) < region@.len(),
            slots_from_region(region@, item_spawn_points@),
            monster_spawn_points@.len() + item_spawn_points@.len() + pool@.len()
                == region@.len(),
        decreases total - n,
    {
        let array_index: usize = if pool.len() == 1 {
            0
        } else {
            (rng_roll_dice(rng, 1, pool.len() as i32) - 1) as usize
        };
        let pool_idx = pool[array_index];
        let map_idx = region[pool_idx];
        let ghost pre_items = item_spawn_points@;
        if n < num_monsters {
            monster_spawn_points.push(map_idx);
        } else {
            item_spawn_points.push(map_idx);
            proof {
                assert(region@[pool_idx as int] == map_idx);
                assert(region@.contains(map_idx));
                assert forall|j: int|
                    #![trigger item_spawn_points@[j]]
                    0 <= j < item_spawn_points@.len() implies region@.contains(
                    item_spawn_points@[j],
                ) by {
                    if j < pre_items.len() {
                        assert(item_spawn_points@[j] == pre_items[j]);
                        assert(region@.contains(pre_items[j]));
                    } else {
                        assert(item_spawn_points@[j] == map_idx);
                    }
                }
            }
        }
        pool.remove(array_index);
        proof {
            assert forall|j: int| 0 <= j < pool@.len() implies (#[trigger] pool@[j])
                < region@.len() by {}
        }
        n += 1;
    }
    proof {
        assert(slots_from_region(region@, item_spawn_points@));
    }
    (monster_spawn_points, item_spawn_points)
}

/// The item population pass over a region (a list of candidate tile
/// indices): draws a depth-scaled count of monster slots and a separate
/// depth-scaled count of item slots from the region without replacement,
/// then rolls the depth-weighted item table for each item slot still
/// spawn-eligible.  The monster slots merely leave the region here; the
/// monster population pass is `spawn_monsters`.  The "nothing spawned"
/// outcome consumes its tile without a placement.
#[verifier::loop_isolation(false)]
#[verifier::rlimit(100)]
pub fn spawn_items_in_region(
    map: &mut GameMap,
    rng: &mut rltk::RandomNumberGenerator,
    region: &Vec<usize>,
    depth: i32,
) -> (r: Vec<ItemSpawnChoice>)
    requires
        old(map).wf(),
        1 <= depth <= 100000000,
        region@.len() <= 1000000,
        forall|i: int| 0 <= i < region@.len() ==> (#[trigger] region@[i]) < old(map).area(),
    ensures
        final(map).wf(),
        *final(map) == (GameMap { ok_to_spawn: final(map).ok_to_spawn, ..*old(map) }),
        forall|i: int|
            0 <= i < final(map).ok_to_spawn@.len() ==> (#[trigger] final(map).ok_to_spawn@[i]
                ==> old(map).ok_to_spawn@[i]),
        forall|c: int|
            0 <= c < r@.len() ==> item_choice_ok(
                *old(map),
                region@,
                *final(map),
                depth as int,
                #[trigger] r@[c],
            ),
        forall|c1: int, c2: int|
            #![trigger r@[c1], r@[c2]]
            0 <= c1 < c2 < r@.len() ==> !(r@[c1].x == r@[c2].x && r@[c1].y == r@[c2].y),
        r@.len() <= region@.len(),
        region@.len() == 0 ==> *final(map) == *old(map) && r@.len() == 0,
{
    let mut choices: Vec<ItemSpawnChoice> = Vec::new();
    if region.len() == 0 {
        return choices;
    }
    let num_monsters = rng_roll_dice(rng, 1, MAX_MONSTERS_IN_ROOM + 1) + depth;
    let num_items = rng_roll_dice(rng, 1, MAX_ITEMS_IN_ROOM + 1) + depth / 2;
    let slots = draw_spawn_slots(rng, region, num_monsters, num_items);
    let item_spawn_points = slots.1;
    proof {
        assert(slots_from_region(region@, item_spawn_points@));
        assert forall|j: int|
            #![trigger item_spawn_points@[j]]
            0 <= j < item_spawn_points@.len() implies region@.contains(item_spawn_points@[j]) && (
        item_spawn_points@[j]) < old(map).area() by {
            assert(region@.contains(item_spawn_points@[j]));
            let k = choose|k: int|
                0 <= k < region@.len() && #[trigger] region@[k] == item_spawn_points@[j];
            assert(region@[k] < old(map).area());
        }
    }
    let mut k: usize = 0;
    while k < item_spawn_points.len()
        invariant
            map.wf(),
            *map == (GameMap { ok_to_spawn: map.ok_to_spawn, ..*old(map) }),
            forall|i: int|
                0 <= i < map.ok_to_spawn@.len() ==> (#[trigger] map.ok_to_spawn@[i] ==> old(
                    map,
                ).ok_to_spawn@[i]),
            forall|j: int|
                0 <= j < item_spawn_points@.len() ==> (#[trigger] item_spawn_points@[j]) < old(
                    map,
                ).area(),
            forall|j: int|
                #![trigger item_spawn_points@[j]]
                0 <= j < item_spawn_points@.len() ==> region@.contains(item_spawn_points@[j]),
            item_spawn_points@.len() <= region@.len(),
            choices@.len() <= k <= item_spawn_points@.len(),
            forall|c: int|
                0 <= c < choices@.len() ==> item_choice_ok(
                    *old(map),
                    region@,
                    *map,
                    depth as int,
                    #[trigger] choices@[c],
                ),
            forall|c1: int, c2: int|
                #![trigger choices@[c1], choices@[c2]]
                0 <= c1 < c2 < choices@.len() ==> !(choices@[c1].x == choices@[c2].x
                    && choices@[c1].y == choices@[c2].y),
        decreases item_spawn_points@.len() - k,
    {
        let idx = item_spawn_points[k];
        let (x, y) = map.idx_xy(idx);
        let ghost map_iter0 = *map;
        if map.ok_to_spawn[idx] {
            proof {
                assert(old(map).ok_to_spawn@[idx as int]);
            }
            map.ok_to_spawn[idx] = false;
            proof {
                assert forall|xx: int, yy: int| map.in_bounds(xx, yy) implies 0 <= map.spec_idx(
                    xx,
                    yy,
                ) < map.area() by {
                    map.lemma_idx_bounds(xx, yy);
                }
                assert forall|c: int| 0 <= c < choices@.len() implies item_choice_ok(
                    *old(map),
                    region@,
                    *map,
                    depth as int,
                    #[trigger] choices@[c],
                ) by {
                    assert(item_choice_ok(
                        *old(map),
                        region@,
                        map_iter0,
                        depth as int,
                        choices@[c],
                    ));
                    let t = map_iter0.spec_idx(choices@[c].x as int, choices@[c].y as int);
                    map_iter0.lemma_idx_bounds(choices@[c].x as int, choices@[c].y as int);
                    assert(map.ok_to_spawn@ == map_iter0.ok_to_spawn@.update(idx as int, false));
                    assert(map.ok_to_spawn@[t] == false);
                    assert(map.spec_idx(choices@[c].x as int, choices@[c].y as int) == t);
                }
            }
            let item = spawn_random_item(rng, depth);
            if let Some(t) = item {
                let is_nothing = match t {
                    ItemType::Nothing => true,
                    _ => false,
                };
                if !is_nothing {
                    let ghost cs0 = choices@;
                    let ich = ItemSpawnChoice { item_type: t, x, y };
                    choices.push(ich);
                    proof {
                        assert(map.spec_idx(x as int, y as int) == idx as int);
                        assert(region@.contains(idx));
                        assert forall|c: int| 0 <= c < choices@.len() implies item_choice_ok(
                            *old(map),
                            region@,
                            *map,
                            depth as int,
                            #[trigger] choices@[c],
                        ) by {
                            if c < choices@.len() - 1 {
                                assert(choices@[c] == cs0[c]);
                                assert(item_choice_ok(
                                    *old(map),
                                    region@,
                                    *map,
                                    depth as int,
                                    cs0[c],
                                ));
                            } else {
                                assert(choices@[c] == ich);
                            }
                        }
                        assert forall|c1: int, c2: int|
                            #![trigger choices@[c1], choices@[c2]]
                            0 <= c1 < c2 < choices@.len() implies !(choices@[c1].x
                            == choices@[c2].x && choices@[c1].y == choices@[c2].y) by {
                            if c2 == choices@.len() - 1 {
                                assert(choices@[c1] == cs0[c1]);
                                if choices@[c1].x == x && choices@[c1].y == y {
                                    assert(!map_iter0.ok_to_spawn@[map_iter0.spec_idx(
                                        x as int,
                                        y as int,
                                    )]);
                                }
                            } else {
                                assert(choices@[c1] == cs0[c1] && choices@[c2] == cs0[c2]);
                            }
                        }
                    }
                }
            }
        }
        k += 1;
    }
    choices
}



} // verus!
