//! Entity-owned state: positions, viewsheds, combat statistics, status
//! ailments, spell charges, the per-tick intents produced by the AI systems,
//! and the three mutually exclusive AI behaviour variants.

use vstd::prelude::*;

verus! {

/// An integer grid coordinate, owned by the entity it locates.
#[derive(Clone, Copy, PartialEq, Eq, Structural, Debug)]
pub struct Position {
    pub x: i32,
    pub y: i32,
}

/// Absolute value of a mathematical integer.
pub open spec fn abs_int(x: int) -> int {
    if x < 0 {
        -x
    } else {
        x
    }
}

/// Squared Euclidean distance between two grid points.
pub open spec fn sq_euclid_dist(p: Position, q: Position) -> int {
    (p.x - q.x) * (p.x - q.x) + (p.y - q.y) * (p.y - q.y)
}

/// Chebyshev (L-infinity) distance between two grid points.
pub open spec fn chebyshev_dist(p: Position, q: Position) -> int {
    if abs_int(p.x - q.x) >= abs_int(p.y - q.y) {
        abs_int(p.x - q.x)
    } else {
        abs_int(p.y - q.y)
    }
}

/// Lexicographic order on grid points: by column, then by row.
pub open spec fn pos_lex_lt(a: Position, b: Position) -> bool {
    a.x < b.x || (a.x == b.x && a.y < b.y)
}

/// Two tiles are adjacent when their Euclidean distance is below 1.5, i.e.
/// when the squared distance is at most 2.  This includes the tile itself.
pub open spec fn next_to(p: Position, q: Position) -> bool {
    sq_euclid_dist(p, q) <= 2
}

/// Coordinates small enough that squared distances cannot overflow `i64`.
pub open spec fn coord_bounded(p: Position) -> bool {
    -100000 <= p.x <= 100000 && -100000 <= p.y <= 100000
}

/// Decides adjacency ("next to", Euclidean distance < 1.5) between two tiles.
pub fn is_next_to(p: Position, q: Position) -> (r: bool)
    requires
        coord_bounded(p),
        coord_bounded(q),
    ensures
        r == next_to(p, q),
{
    let dx: i64 = p.x as i64 - q.x as i64;
    let dy: i64 = p.y as i64 - q.y as i64;
    proof {
        assert(dx * dx <= 200000 * 200000 && dx * dx >= 0) by (nonlinear_arith)
            requires -200000 <= dx <= 200000;
        assert(dy * dy <= 200000 * 200000 && dy * dy >= 0) by (nonlinear_arith)
            requires -200000 <= dy <= 200000;
    }
    dx * dx + dy * dy <= 2
}

/// Computes the Chebyshev (L-infinity) distance between two tiles.
pub fn l_infinity_dist(p: Position, q: Position) -> (r: i32)
    requires
        coord_bounded(p),
        coord_bounded(q),
    ensures
        r == chebyshev_dist(p, q),
{
    let dx: i32 = if p.x >= q.x {
        p.x - q.x
    } else {
        q.x - p.x
    };
    let dy: i32 = if p.y >= q.y {
        p.y - q.y
    } else {
        q.y - p.y
    };
    if dx >= dy {
        dx
    } else {
        dy
    }
}

/// The set of tiles currently visible to an actor, with a visibility range and
/// a flag forcing recomputation (by an external visibility collaborator) after
/// the actor moves.
pub struct Viewshed {
    pub visible_tiles: Vec<Position>,
    pub range: i32,
    pub dirty: bool,
}

impl Viewshed {
    /// Whether the given tile is currently visible.
    pub fn contains(&self, p: Position) -> (r: bool)
        ensures
            r == self.visible_tiles@.contains(p),
    {
        let mut i: usize = 0;
        while i < self.visible_tiles.len()
            invariant
                i <= self.visible_tiles@.len(),
                forall|j: int| 0 <= j < i ==> self.visible_tiles@[j] != p,
            decreases self.visible_tiles@.len() - i,
        {
            if self.visible_tiles[i] == p {
                assert(self.visible_tiles@[i as int] == p);
                return true;
            }
            i += 1;
        }
        false
    }
}

/// Hit points and their maximum, the only combat data the AI layer reads.
#[derive(Clone, Copy, PartialEq, Eq, Structural, Debug)]
pub struct CombatStats {
    pub hp: i32,
    pub max_hp: i32,
}

/// A castable spell held in an actor's spellbook, with its remaining charges.
#[derive(Clone, Copy, PartialEq, Eq, Structural, Debug)]
pub struct SpellCharges {
    pub charges: i32,
    pub max_charges: i32,
}

/// Frozen ailment: while present the actor is excluded from acting; ticks
/// down once per game tick and expires at zero remaining turns.
#[derive(Clone, Copy, PartialEq, Eq, Structural, Debug)]
pub struct StatusIsFrozen {
    pub remaining_turns: i32,
}

impl StatusIsFrozen {
    /// A fresh frozen ailment; ailments are always created with at least one
    /// remaining turn, so a live ailment always has a positive counter.
    pub fn new(turns: i32) -> (s: StatusIsFrozen)
        requires
            1 <= turns,
        ensures
            s.remaining_turns == turns,
    {
        StatusIsFrozen { remaining_turns: turns }
    }
}

/// Burning ailment: applies a fixed damage amount each tick while active,
/// ticks down once per game tick and expires at zero remaining turns.
#[derive(Clone, Copy, PartialEq, Eq, Structural, Debug)]
pub struct StatusIsBurning {
    pub remaining_turns: i32,
    pub tick_damage: i32,
}

impl StatusIsBurning {
    pub fn new(turns: i32, tick_damage: i32) -> (s: StatusIsBurning)
        requires
            1 <= turns,
            0 <= tick_damage,
        ensures
            s.remaining_turns == turns,
            s.tick_damage == tick_damage,
    {
        StatusIsBurning { remaining_turns: turns, tick_damage }
    }
}

/// The elemental kind attached to a queued damage event.
#[derive(Clone, Copy, PartialEq, Eq, Structural, Debug)]
pub enum ElementalDamageKind {
    Physical,
    Fire,
    Chill,
}

/// A single queued damage event, consumed by an external resolution system.
#[derive(Clone, Copy, PartialEq, Eq, Structural, Debug)]
pub struct DamageRequest {
    pub amount: i32,
    pub kind: ElementalDamageKind,
}

/// Intent to melee-attack the given entity, produced by an AI decision.
#[derive(Clone, Copy, PartialEq, Eq, Structural, Debug)]
pub struct WantsToMeleeAttack {
    pub target: usize,
}

/// Intent to use a targeted spell (identified by its index in the acting
/// entity's spellbook) aimed at a map position.
#[derive(Clone, Copy, PartialEq, Eq, Structural, Debug)]
pub struct WantsToUseTargeted {
    pub thing: usize,
    pub target: Position,
}

/// Which terrain an actor's pathfinding will route around.
#[derive(Clone, Copy, PartialEq, Eq, Structural, Debug)]
pub struct MovementRoutingOptions {
    pub avoid_blocked: bool,
    pub avoid_fire: bool,
    pub avoid_chill: bool,
}

/// State for the basic melee-chaser behaviour.
#[derive(Clone, Copy, PartialEq, Eq, Structural, Debug)]
pub struct MonsterBasicAI {
    /// Decaying memory of recent target visibility: while positive the
    /// monster keeps pursuing the target's position after losing sight.
    pub keep_following_turns: i32,
    /// Value the memory is reset to whenever the target is visible.
    pub keep_following_turns_max: i32,
    /// Whether to wander to a random adjacent tile when nothing is visible.
    pub no_visibility_wander: bool,
    pub routing_options: MovementRoutingOptions,
}

impl MonsterBasicAI {
    /// Whether the decaying pursuit memory still drives the monster.
    pub fn do_keep_following(&self) -> (r: bool)
        ensures
            r == (self.keep_following_turns > 0),
    {
        self.keep_following_turns > 0
    }

    /// Resets the pursuit memory to its maximum.
    pub fn reset_keep_following(&mut self)
        ensures
            *final(self) == (MonsterBasicAI {
                keep_following_turns: old(self).keep_following_turns_max,
                ..*old(self)
            }),
    {
        self.keep_following_turns = self.keep_following_turns_max;
    }

    /// Lets the pursuit memory decay by one turn.
    pub fn decrement_keep_following(&mut self)
        requires
            old(self).keep_following_turns > i32::MIN,
        ensures
            *final(self) == (MonsterBasicAI {
                keep_following_turns: (old(self).keep_following_turns - 1) as i32,
                ..*old(self)
            }),
    {
        self.keep_following_turns = self.keep_following_turns - 1;
    }
}

/// State for the attack-spellcaster behaviour.
#[derive(Clone, Copy, PartialEq, Eq, Structural, Debug)]
pub struct MonsterAttackSpellcasterAI {
    /// Chebyshev distance the caster tries to keep from its target while
    /// waiting for spell charges.
    pub distance_to_keep_away: i32,
    pub routing_options: MovementRoutingOptions,
}

/// State for the support-spellcaster (cleric-like) behaviour.
#[derive(Clone, Copy, PartialEq, Eq, Structural, Debug)]
pub struct MonsterClericAI {
    pub distance_to_keep_away_from_player: i32,
    pub distance_to_keep_away_from_monsters: i32,
    pub routing_options: MovementRoutingOptions,
}

/// The tagged union of the three mutually exclusive AI behaviour variants;
/// each actor holds exactly one.
#[derive(Clone, Copy, PartialEq, Eq, Structural, Debug)]
pub enum MonsterAI {
    Basic(MonsterBasicAI),
    AttackSpellcaster(MonsterAttackSpellcasterAI),
    Cleric(MonsterClericAI),
}

/// One non-player actor: its spatial, combat, status and intent state.
/// Actors are identified by their index in the world's actor vector.
pub struct Monster {
    pub pos: Position,
    pub viewshed: Viewshed,
    pub ai: MonsterAI,
    pub stats: CombatStats,
    /// The per-tick eligibility marker: set by the eligibility gate, cleared
    /// by the AI system that consumes the actor's turn.
    pub can_act: bool,
    pub frozen: Option<StatusIsFrozen>,
    pub burning: Option<StatusIsBurning>,
    /// The actor's spellbook.
    pub spells: Vec<SpellCharges>,
    pub wants_melee: Option<WantsToMeleeAttack>,
    pub wants_targeted: Option<WantsToUseTargeted>,
    /// Damage events queued for an external resolution system.
    pub wants_take_damage: Vec<DamageRequest>,
}

} // verus!
