//! The status-effect engine: advances and expires the time-limited ailments
//! (frozen, burning) once per tick, queueing burn damage and emitting expiry
//! notifications toward the event-log collaborator.

use vstd::prelude::*;
use crate::components::{
    DamageRequest, ElementalDamageKind, Monster, StatusIsBurning, StatusIsFrozen,
};

verus! {

/// One entry of the event log; an external presentation layer turns these
/// into human-readable text lines.
#[derive(Clone, Copy, PartialEq, Eq, Structural, Debug)]
pub enum LogEvent {
    FrozenExpired { entity: usize },
    BurningExpired { entity: usize },
}

/// The event log the simulation appends its notifications to.
pub struct GameLog {
    pub entries: Vec<LogEvent>,
}

impl GameLog {
    pub fn new() -> (log: GameLog)
        ensures
            log.entries@.len() == 0,
    {
        GameLog { entries: Vec::new() }
    }
}

/// Whether this tick's decrement expires the monster's frozen ailment.
pub open spec fn frozen_expires(m: Monster) -> bool {
    m.frozen matches Some(f) && f.remaining_turns - 1 <= 0
}

/// Whether this tick's decrement expires the monster's burning ailment.
pub open spec fn burning_expires(m: Monster) -> bool {
    m.burning matches Some(b) && b.remaining_turns - 1 <= 0
}

/// The expiry notifications one monster emits this tick, frozen first.
pub open spec fn monster_expiry_events(m: Monster, entity: usize) -> Seq<LogEvent> {
    (if frozen_expires(m) {
        seq![LogEvent::FrozenExpired { entity }]
    } else {
        Seq::empty()
    }) + (if burning_expires(m) {
        seq![LogEvent::BurningExpired { entity }]
    } else {
        Seq::empty()
    })
}

/// The expiry notifications of the first `n` monsters, in entity order.
pub open spec fn expiry_events(ms: Seq<Monster>, n: int) -> Seq<LogEvent>
    decreases n,
{
    if n <= 0 {
        Seq::empty()
    } else {
        expiry_events(ms, n - 1) + monster_expiry_events(ms[n - 1], (n - 1) as usize)
    }
}

/// How one tick of the status engine rewrites a single monster: ailment
/// counters decrement, ailments reaching zero are removed, an active burn
/// queues its tick damage, and nothing else changes.
pub open spec fn status_ticked(o: Monster, m: Monster) -> bool {
    &&& (match o.frozen {
        None => m.frozen is None,
        Some(f) => if f.remaining_turns - 1 <= 0 {
            m.frozen is None
        } else {
            m.frozen == Some(StatusIsFrozen { remaining_turns: (f.remaining_turns - 1) as i32 })
        },
    })
    &&& (match o.burning {
        None => m.burning is None && m.wants_take_damage@ == o.wants_take_damage@,
        Some(b) => if b.remaining_turns - 1 <= 0 {
            m.burning is None && m.wants_take_damage@ == o.wants_take_damage@
        } else {
            m.burning == Some(
                StatusIsBurning {
                    remaining_turns: (b.remaining_turns - 1) as i32,
                    tick_damage: b.tick_damage,
                },
            ) && m.wants_take_damage@ == o.wants_take_damage@.push(
                DamageRequest { amount: b.tick_damage, kind: ElementalDamageKind::Fire },
            )
        },
    })
    &&& m.pos == o.pos
    &&& m.viewshed.visible_tiles@ == o.viewshed.visible_tiles@
    &&& m.viewshed.range == o.viewshed.range
    &&& m.viewshed.dirty == o.viewshed.dirty
    &&& m.ai == o.ai
    &&& m.stats == o.stats
    &&& m.can_act == o.can_act
    &&& m.spells@ == o.spells@
    &&& m.wants_melee == o.wants_melee
    &&& m.wants_targeted == o.wants_targeted
}

pub struct StatusSystem {}

impl StatusSystem {
    /// One tick over every monster: decrement each ailment, remove it at
    /// zero remaining turns with an expiry notification, and queue the burn
    /// damage of ailments still active after the decrement.
    #[verifier::loop_isolation(false)]
    pub fn run(&mut self, log: &mut GameLog, monsters: &mut Vec<Monster>)
        requires
            forall|i: int|
                0 <= i < old(monsters)@.len() ==> ((#[trigger] old(monsters)@[i]).frozen
                    matches Some(f) ==> f.remaining_turns >= 0),
            forall|i: int|
                0 <= i < old(monsters)@.len() ==> ((#[trigger] old(monsters)@[i]).burning
                    matches Some(b) ==> b.remaining_turns >= 0),
        ensures
            final(monsters)@.len() == old(monsters)@.len(),
            forall|i: int|
                0 <= i < old(monsters)@.len() ==> status_ticked(
                    old(monsters)@[i],
                    #[trigger] final(monsters)@[i],
                ),
            final(log).entries@ == old(log).entries@ + expiry_events(
                old(monsters)@,
                old(monsters)@.len() as int,
            ),
    {
        let ghost ms0 = monsters@;
        let mut i: usize = 0;
        proof {
            assert(log.entries@ =~= old(log).entries@ + expiry_events(ms0, 0));
        }
        while i < monsters.len()
            invariant
                0 <= i <= ms0.len(),
                monsters@.len() == ms0.len(),
                forall|j: int| i <= j < ms0.len() ==> monsters@[j] == ms0[j],
                forall|j: int| 0 <= j < i ==> status_ticked(ms0[j], #[trigger] monsters@[j]),
                log.entries@ == old(log).entries@ + expiry_events(ms0, i as int),
            decreases ms0.len() - i,
        {
            let ghost msi = monsters@;
            let mut m = monsters.remove(i);
            proof {
                assert(old(monsters)@[i as int] == ms0[i as int]);
                assert(m == ms0[i as int]);
            }
            if let Some(f) = m.frozen {
                let rem = f.remaining_turns - 1;
                if rem <= 0 {
                    m.frozen = None;
                    log.entries.push(LogEvent::FrozenExpired { entity: i });
                } else {
                    m.frozen = Some(StatusIsFrozen { remaining_turns: rem });
                }
            }
            if let Some(b) = m.burning {
                let rem = b.remaining_turns - 1;
                if rem <= 0 {
                    m.burning = None;
                    log.entries.push(LogEvent::BurningExpired { entity: i });
                } else {
                    m.burning = Some(StatusIsBurning { remaining_turns: rem, tick_damage: b.tick_damage });
                    m.wants_take_damage.push(
                        DamageRequest { amount: b.tick_damage, kind: ElementalDamageKind::Fire },
                    );
                }
            }
            let ghost mfin = m;
            monsters.insert(i, m);
            proof {
                assert(monsters@ =~= msi.update(i as int, mfin));
                assert(status_ticked(ms0[i as int], mfin));
                assert(expiry_events(ms0, i + 1) == expiry_events(ms0, i as int)
                    + monster_expiry_events(ms0[i as int], i));
                assert(log.entries@ =~= old(log).entries@ + expiry_events(ms0, i + 1));
            }
            i += 1;
        }
    }
}

/// Named colors for status indicators; the presentation layer maps them to
/// its own color type.
#[derive(Clone, Copy, PartialEq, Eq, Structural, Debug)]
pub enum IndicatorColor {
    LightBlue,
    Orange,
}

/// A glyph/color pair indicating one status effect on an entity.
#[derive(Clone, Copy, PartialEq, Eq, Structural, Debug)]
pub struct StatusIndicatorGlyph {
    pub glyph: char,
    pub color: IndicatorColor,
}

/// The indicators a monster's current ailments call for: a blue diamond for
/// frozen, an orange spade for burning.
pub open spec fn spec_status_indicators(m: Monster) -> Seq<StatusIndicatorGlyph> {
    (if m.frozen is Some {
        seq![StatusIndicatorGlyph { glyph: '\u{2666}', color: IndicatorColor::LightBlue }]
    } else {
        Seq::empty()
    }) + (if m.burning is Some {
        seq![StatusIndicatorGlyph { glyph: '\u{2660}', color: IndicatorColor::Orange }]
    } else {
        Seq::empty()
    })
}

/// Returns indicator glyphs for all status effects currently affecting the
/// given monster.
pub fn get_status_indicators(monster: &Monster) -> (v: Vec<StatusIndicatorGlyph>)
    ensures
        v@ == spec_status_indicators(*monster),
{
    let mut v: Vec<StatusIndicatorGlyph> = Vec::new();
    if monster.frozen.is_some() {
        v.push(StatusIndicatorGlyph { glyph: '\u{2666}', color: IndicatorColor::LightBlue });
    }
    if monster.burning.is_some() {
        v.push(StatusIndicatorGlyph { glyph: '\u{2660}', color: IndicatorColor::Orange });
    }
    proof {
        assert(v@ =~= spec_status_indicators(*monster));
    }
    v
}

} // verus!
