//! The hazard propagation engine: fire and chill entities with per-tile
//! presence flags, spawned and destroyed only through the two operations
//! that keep flag and entity in agreement, and advanced by a per-tick
//! spread/dissipate pass.

use vstd::prelude::*;
use crate::components::{ElementalDamageKind, Position};
use crate::map::{GameMap, TileType};
use crate::rng::rng_roll_dice;

verus! {

#[derive(Clone, Copy, PartialEq, Eq, Structural, Debug)]
pub enum HazardKind {
    Fire,
    Chill,
}

/// A transient environmental hazard occupying one tile, with its spread and
/// dissipation chances (percent against a d100 roll; values above the die
/// range mean certainty) and its contact-damage descriptor.
#[derive(Clone, Copy, PartialEq, Eq, Structural, Debug)]
pub struct Hazard {
    pub kind: HazardKind,
    pub pos: Position,
    pub spread_chance: i32,
    pub dissipate_chance: i32,
    pub contact_damage: i32,
    pub damage_kind: ElementalDamageKind,
}

/// The per-tile flag of the given hazard kind.
pub open spec fn hazard_flag(m: GameMap, kind: HazardKind, i: int) -> bool {
    match kind {
        HazardKind::Fire => m.fire@[i],
        HazardKind::Chill => m.chill@[i],
    }
}

/// The hazard subsystem's core invariant: every hazard entity sits in
/// bounds with its kind's flag set on its tile, no tile hosts two hazards
/// of one kind, and every set flag is backed by a hazard entity.
pub open spec fn hazards_consistent(m: GameMap, hs: Seq<Hazard>) -> bool {
    &&& forall|a: int| 0 <= a < hs.len() ==> m.pos_in_bounds((#[trigger] hs[a]).pos)
    &&& forall|a: int|
        0 <= a < hs.len() ==> hazard_flag(m, (#[trigger] hs[a]).kind, m.spec_pos_idx(hs[a].pos))
    &&& forall|a: int, b: int|
        0 <= a < b < hs.len() ==> !((#[trigger] hs[a]).kind == (#[trigger] hs[b]).kind && hs[a].pos
            == hs[b].pos)
    &&& forall|x: int, y: int, kind: HazardKind|
        m.in_bounds(x, y) && #[trigger] hazard_flag(m, kind, m.spec_idx(x, y)) ==> exists|a: int|
            0 <= a < hs.len() && (#[trigger] hs[a]).kind == kind && hs[a].pos == (Position {
                x: x as i32,
                y: y as i32,
            })
}

/// Spread and dissipation chances stay within the range the tick arithmetic
/// supports.
pub open spec fn hazard_chances_bounded(hs: Seq<Hazard>) -> bool {
    forall|a: int|
        0 <= a < hs.len() ==> 0 <= (#[trigger] hs[a]).spread_chance <= 10000 && 0 <= hs[a].dissipate_chance
            <= 10000
}

/// Hazard invariant law: the per-tile flag for a kind holds exactly when a
/// live hazard entity of that kind occupies the tile, and that entity is
/// unique.
pub proof fn lemma_hazard_flag_exactly_one(
    m: GameMap,
    hs: Seq<Hazard>,
    kind: HazardKind,
    x: int,
    y: int,
)
    requires
        m.wf(),
        m.in_bounds(x, y),
        hazards_consistent(m, hs),
    ensures
        hazard_flag(m, kind, m.spec_idx(x, y)) <==> exists|a: int|
            0 <= a < hs.len() && (#[trigger] hs[a]).kind == kind && hs[a].pos == (Position {
                x: x as i32,
                y: y as i32,
            }),
        forall|a: int, b: int|
            0 <= a < hs.len() && 0 <= b < hs.len() && (#[trigger] hs[a]).kind == kind
                && (#[trigger] hs[b]).kind == kind && hs[a].pos == (Position {
                x: x as i32,
                y: y as i32,
            }) && hs[b].pos == hs[a].pos ==> a == b,
{
    if exists|a: int|
        0 <= a < hs.len() && (#[trigger] hs[a]).kind == kind && hs[a].pos == (Position {
            x: x as i32,
            y: y as i32,
        }) {
        let a = choose|a: int|
            0 <= a < hs.len() && (#[trigger] hs[a]).kind == kind && hs[a].pos == (Position {
                x: x as i32,
                y: y as i32,
            });
        assert(hazard_flag(m, hs[a].kind, m.spec_pos_idx(hs[a].pos)));
    }
}

/// A map with no hazard flags set and no hazard entities satisfies the
/// flag/entity agreement invariant, so a freshly generated level starts
/// consistent.
pub proof fn lemma_no_hazards_consistent(m: GameMap)
    requires
        m.wf(),
        forall|i: int| 0 <= i < m.area() ==> !(#[trigger] m.fire@[i]) && !m.chill@[i],
    ensures
        hazards_consistent(m, Seq::<Hazard>::empty()),
{
    assert forall|x: int, y: int, kind: HazardKind|
        m.in_bounds(x, y) && #[trigger] hazard_flag(m, kind, m.spec_idx(x, y)) implies exists|
        a: int,
    |
        0 <= a < Seq::<Hazard>::empty().len() && (#[trigger] Seq::<Hazard>::empty()[a]).kind
            == kind && Seq::<Hazard>::empty()[a].pos == (Position {
            x: x as i32,
            y: y as i32,
        }) by {
        m.lemma_idx_bounds(x, y);
    }
}

/// The spawn operation: creates a hazard of the given kind at (x, y) and
/// sets its per-tile flag, refusing (with no entity) when the tile is a
/// wall or already hosts a hazard of that kind.  Together with
/// `destroy_hazard` this is the only path that creates or deletes hazards,
/// which is what keeps the flag/entity agreement invariant.
pub fn spawn_hazard(
    map: &mut GameMap,
    hazards: &mut Vec<Hazard>,
    kind: HazardKind,
    x: i32,
    y: i32,
    spread_chance: i32,
    dissipate_chance: i32,
    contact_damage: i32,
) -> (r: Option<usize>)
    requires
        old(map).wf(),
        old(map).in_bounds(x as int, y as int),
        hazards_consistent(*old(map), old(hazards)@),
        0 <= spread_chance <= 10000,
        0 <= dissipate_chance <= 10000,
        hazard_chances_bounded(old(hazards)@),
    ensures
        final(map).wf(),
        hazards_consistent(*final(map), final(hazards)@),
        hazard_chances_bounded(final(hazards)@),
        *final(map) == (GameMap { fire: final(map).fire, chill: final(map).chill, ..*old(map) }),
        ({
            let i = old(map).spec_idx(x as int, y as int);
            let refused = old(map).tiles@[i] == TileType::Wall || hazard_flag(*old(map), kind, i);
            if refused {
                r is None && *final(map) == *old(map) && final(hazards)@ == old(hazards)@
            } else {
                &&& r == Some(old(hazards)@.len() as usize)
                &&& final(hazards)@ == old(hazards)@.push(
                    Hazard {
                        kind,
                        pos: Position { x, y },
                        spread_chance,
                        dissipate_chance,
                        contact_damage,
                        damage_kind: (match kind {
                            HazardKind::Fire => ElementalDamageKind::Fire,
                            HazardKind::Chill => ElementalDamageKind::Chill,
                        }),
                    },
                )
                &&& (kind is Fire ==> final(map).fire@ == old(map).fire@.update(i, true)
                    && final(map).chill@ == old(map).chill@)
                &&& (kind is Chill ==> final(map).chill@ == old(map).chill@.update(i, true)
                    && final(map).fire@ == old(map).fire@)
            }
        }),
{
    let idx = map.xy_idx(x, y);
    let is_wall = match map.tiles[idx] {
        TileType::Wall => true,
        TileType::Floor => false,
    };
    let flagged = match kind {
        HazardKind::Fire => map.fire[idx],
        HazardKind::Chill => map.chill[idx],
    };
    if is_wall || flagged {
        return None;
    }
    let entity = hazards.len();
    let h = Hazard {
        kind,
        pos: Position { x, y },
        spread_chance,
        dissipate_chance,
        contact_damage,
        damage_kind: (match kind {
            HazardKind::Fire => ElementalDamageKind::Fire,
            HazardKind::Chill => ElementalDamageKind::Chill,
        }),
    };
    hazards.push(h);
    match kind {
        HazardKind::Fire => {
            map.fire[idx] = true;
        },
        HazardKind::Chill => {
            map.chill[idx] = true;
        },
    }
    proof {
        let mpre = *old(map);
        let mpost = *map;
        assert forall|xx: int, yy: int|
            mpre.in_bounds(xx, yy) && !(xx == x && yy == y) implies mpre.spec_idx(xx, yy)
            != mpre.spec_idx(x as int, y as int) by {
            if mpre.spec_idx(xx, yy) == mpre.spec_idx(x as int, y as int) {
                mpre.lemma_idx_injective(xx, yy, x as int, y as int);
            }
        }
        assert forall|xx: int, yy: int| mpre.in_bounds(xx, yy) implies 0 <= mpre.spec_idx(xx, yy)
            < mpre.area() by {
            mpre.lemma_idx_bounds(xx, yy);
        }
        assert forall|a: int| 0 <= a < hazards@.len() implies hazard_flag(
            mpost,
            (#[trigger] hazards@[a]).kind,
            mpost.spec_pos_idx(hazards@[a].pos),
        ) by {
            if a < hazards@.len() - 1 {
                assert(hazards@[a] == old(hazards)@[a]);
                assert(hazard_flag(mpre, hazards@[a].kind, mpre.spec_pos_idx(hazards@[a].pos)));
            }
        }
        assert forall|a: int, b: int| 0 <= a < b < hazards@.len() implies !((
        #[trigger] hazards@[a]).kind == (#[trigger] hazards@[b]).kind && hazards@[a].pos
            == hazards@[b].pos) by {
            if b == hazards@.len() - 1 && hazards@[a].kind == hazards@[b].kind && hazards@[a].pos
                == hazards@[b].pos {
                assert(hazard_flag(mpre, kind, mpre.spec_pos_idx(old(hazards)@[a].pos)));
            }
        }
        assert forall|xx: int, yy: int, k: HazardKind|
            mpost.in_bounds(xx, yy) && #[trigger] hazard_flag(
                mpost,
                k,
                mpost.spec_idx(xx, yy),
            ) implies exists|a: int|
            0 <= a < hazards@.len() && (#[trigger] hazards@[a]).kind == k && hazards@[a].pos == (
            Position { x: xx as i32, y: yy as i32 }) by {
            if xx == x && yy == y && k == kind {
                assert(hazards@[hazards@.len() - 1].kind == k);
            } else {
                let jj = mpre.spec_idx(xx, yy);
                let ii = mpre.spec_idx(x as int, y as int);
                mpre.lemma_idx_bounds(xx, yy);
                mpre.lemma_idx_bounds(x as int, y as int);
                if jj == ii {
                    mpre.lemma_idx_injective(xx, yy, x as int, y as int);
                }
                if kind is Fire {
                    assert(mpost.fire@ == mpre.fire@.update(ii, true));
                    assert(mpost.chill@ == mpre.chill@);
                    if k is Fire {
                        assert(jj != ii);
                        assert(mpost.fire@[jj] == mpre.fire@[jj]);
                    }
                } else {
                    assert(mpost.chill@ == mpre.chill@.update(ii, true));
                    assert(mpost.fire@ == mpre.fire@);
                    if k is Chill {
                        assert(jj != ii);
                        assert(mpost.chill@[jj] == mpre.chill@[jj]);
                    }
                }
                assert(hazard_flag(mpre, k, mpre.spec_idx(xx, yy)));
                let a = choose|a: int|
                    0 <= a < old(hazards)@.len() && (#[trigger] old(hazards)@[a]).kind == k
                        && old(hazards)@[a].pos == (Position { x: xx as i32, y: yy as i32 });
                assert(hazards@[a] == old(hazards)@[a]);
            }
        }
    }
    Some(entity)
}

/// The destroy operation: clears the hazard's per-tile flag, then removes
/// the entity.  Under the invariant the flag is necessarily set here; the
/// fatal abort the specification reserves for a hazard found without its
/// flag cannot be reached from verified callers.
pub fn destroy_hazard(map: &mut GameMap, hazards: &mut Vec<Hazard>, a: usize)
    requires
        old(map).wf(),
        hazards_consistent(*old(map), old(hazards)@),
        hazard_chances_bounded(old(hazards)@),
        a < old(hazards)@.len(),
    ensures
        final(map).wf(),
        hazards_consistent(*final(map), final(hazards)@),
        hazard_chances_bounded(final(hazards)@),
        *final(map) == (GameMap { fire: final(map).fire, chill: final(map).chill, ..*old(map) }),
        final(hazards)@ == old(hazards)@.remove(a as int),
        ({
            let h = old(hazards)@[a as int];
            let i = old(map).spec_pos_idx(h.pos);
            &&& (h.kind is Fire ==> final(map).fire@ == old(map).fire@.update(i, false)
                && final(map).chill@ == old(map).chill@)
            &&& (h.kind is Chill ==> final(map).chill@ == old(map).chill@.update(i, false)
                && final(map).fire@ == old(map).fire@)
        }),
{
    let h = hazards[a];
    let idx = map.pos_idx(h.pos);
    match h.kind {
        HazardKind::Fire => {
            map.fire[idx] = false;
        },
        HazardKind::Chill => {
            map.chill[idx] = false;
        },
    }
    hazards.remove(a);
    proof {
        let mpre = *old(map);
        let mpost = *map;
        let hs0 = old(hazards)@;
        assert forall|xx: int, yy: int|
            mpre.in_bounds(xx, yy) && !(xx == h.pos.x as int && yy == h.pos.y as int)
            implies mpre.spec_idx(xx, yy) != mpre.spec_pos_idx(h.pos) by {
            if mpre.spec_idx(xx, yy) == mpre.spec_pos_idx(h.pos) {
                mpre.lemma_idx_injective(xx, yy, h.pos.x as int, h.pos.y as int);
            }
        }
        assert forall|xx: int, yy: int| mpre.in_bounds(xx, yy) implies 0 <= mpre.spec_idx(xx, yy)
            < mpre.area() by {
            mpre.lemma_idx_bounds(xx, yy);
        }
        assert forall|b: int| 0 <= b < hazards@.len() implies mpost.pos_in_bounds(
            (#[trigger] hazards@[b]).pos,
        ) && hazard_flag(mpost, hazards@[b].kind, mpost.spec_pos_idx(hazards@[b].pos)) by {
            let orig: int = if b < a { b } else { b + 1 };
            assert(hazards@[b] == hs0[orig]);
            assert(hazard_flag(mpre, hs0[orig].kind, mpre.spec_pos_idx(hs0[orig].pos)));
            if hs0[orig].kind == h.kind && hs0[orig].pos == h.pos {
                if orig < a {
                    assert(!(hs0[orig].kind == hs0[a as int].kind && hs0[orig].pos == hs0[a as int].pos));
                } else {
                    assert(!(hs0[a as int].kind == hs0[orig].kind && hs0[a as int].pos == hs0[orig].pos));
                }
            }
        }
        assert forall|b: int, c: int| 0 <= b < c < hazards@.len() implies !((
        #[trigger] hazards@[b]).kind == (#[trigger] hazards@[c]).kind && hazards@[b].pos
            == hazards@[c].pos) by {
            let ob: int = if b < a { b } else { b + 1 };
            let oc: int = if c < a { c } else { c + 1 };
            assert(hazards@[b] == hs0[ob]);
            assert(hazards@[c] == hs0[oc]);
        }
        assert forall|xx: int, yy: int, k: HazardKind|
            mpost.in_bounds(xx, yy) && #[trigger] hazard_flag(
                mpost,
                k,
                mpost.spec_idx(xx, yy),
            ) implies exists|b: int|
            0 <= b < hazards@.len() && (#[trigger] hazards@[b]).kind == k && hazards@[b].pos == (
            Position { x: xx as i32, y: yy as i32 }) by {
            let jj = mpre.spec_idx(xx, yy);
            let ii = mpre.spec_pos_idx(h.pos);
            mpre.lemma_idx_bounds(xx, yy);
            mpre.lemma_idx_bounds(h.pos.x as int, h.pos.y as int);
            if jj == ii {
                mpre.lemma_idx_injective(xx, yy, h.pos.x as int, h.pos.y as int);
            }
            if h.kind is Fire {
                assert(mpost.fire@ == mpre.fire@.update(ii, false));
                assert(mpost.chill@ == mpre.chill@);
            } else {
                assert(mpost.chill@ == mpre.chill@.update(ii, false));
                assert(mpost.fire@ == mpre.fire@);
            }
            if k == h.kind && jj == ii {
                assert(!hazard_flag(mpost, k, jj));
            }
            if jj != ii {
                if h.kind is Fire {
                    assert(mpost.fire@[jj] == mpre.fire@[jj]);
                } else {
                    assert(mpost.chill@[jj] == mpre.chill@[jj]);
                }
            }
            assert(hazard_flag(mpre, k, jj));
            let orig = choose|orig: int|
                0 <= orig < hs0.len() && (#[trigger] hs0[orig]).kind == k && hs0[orig].pos == (
                Position { x: xx as i32, y: yy as i32 });
            if orig == a {
                assert(hs0[a as int] == h);
                assert(jj == ii && k == h.kind);
            } else {
                let b: int = if orig < a {
                    orig
                } else {
                    orig - 1
                };
                assert(hazards@[b] == hs0[orig]);
            }
        }
        assert forall|b: int| 0 <= b < hazards@.len() implies 0 <= (
        #[trigger] hazards@[b]).spread_chance <= 10000 && 0 <= hazards@[b].dissipate_chance
            <= 10000 by {
            let orig: int = if b < a { b } else { b + 1 };
            assert(hazards@[b] == hs0[orig]);
        }
    }
}

/// A tile that can receive a new hazard of the given kind: in bounds, not a
/// wall, and not already hosting that kind.
pub open spec fn hazard_spawnable(m: GameMap, kind: HazardKind, x: int, y: int) -> bool {
    m.in_bounds(x, y) && m.tiles@[m.spec_idx(x, y)] != TileType::Wall && !hazard_flag(
        m,
        kind,
        m.spec_idx(x, y),
    )
}

/// Lexicographic order on king-move offsets: the scan order of the spread
/// step.
pub open spec fn offset_lt(ax: int, ay: int, bx: int, by: int) -> bool {
    ax < bx || (ax == bx && ay < by)
}

/// A spread copy's spread chance: reduced by 20, floored at zero.
pub open spec fn child_spread(s: i32) -> int {
    if s >= 20 {
        s - 20
    } else {
        0
    }
}

/// A spread copy's dissipation chance: raised by 20, clamped to the
/// supported range (anything beyond the die range already means certainty).
pub open spec fn child_dissipate(d: i32) -> int {
    if d + 20 <= 10000 {
        d + 20
    } else {
        10000
    }
}

/// One spread step for the hazard at index `a`, driven by a percentile
/// roll: when the roll is within the spread chance, a weaker copy (lower
/// spread chance, higher dissipation chance) is spawned on the first open
/// adjacent tile in scan order, if any.
#[verifier::loop_isolation(false)]
pub fn hazard_spread_step(map: &mut GameMap, hazards: &mut Vec<Hazard>, a: usize, roll: i32)
    requires
        old(map).wf(),
        hazards_consistent(*old(map), old(hazards)@),
        hazard_chances_bounded(old(hazards)@),
        a < old(hazards)@.len(),
        1 <= roll,
    ensures
        final(map).wf(),
        hazards_consistent(*final(map), final(hazards)@),
        hazard_chances_bounded(final(hazards)@),
        *final(map) == (GameMap { fire: final(map).fire, chill: final(map).chill, ..*old(map) }),
        ({
            let h = old(hazards)@[a as int];
            if roll > h.spread_chance || (forall|dx: int, dy: int|
                crate::routing::neighbor8(dx, dy) ==> !hazard_spawnable(
                    *old(map),
                    h.kind,
                    h.pos.x + dx,
                    h.pos.y + dy,
                )) {
                *final(map) == *old(map) && final(hazards)@ == old(hazards)@
            } else {
                exists|dx: int, dy: int|
                    #![auto]
                    crate::routing::neighbor8(dx, dy) && hazard_spawnable(
                        *old(map),
                        h.kind,
                        h.pos.x + dx,
                        h.pos.y + dy,
                    ) && (forall|ex: int, ey: int|
                        crate::routing::neighbor8(ex, ey) && offset_lt(ex, ey, dx, dy)
                            ==> !hazard_spawnable(*old(map), h.kind, h.pos.x + ex, h.pos.y + ey))
                        && final(hazards)@ == old(hazards)@.push(
                        Hazard {
                            kind: h.kind,
                            pos: Position { x: (h.pos.x + dx) as i32, y: (h.pos.y + dy) as i32 },
                            spread_chance: child_spread(h.spread_chance) as i32,
                            dissipate_chance: child_dissipate(h.dissipate_chance) as i32,
                            contact_damage: h.contact_damage,
                            damage_kind: (match h.kind {
                                HazardKind::Fire => ElementalDamageKind::Fire,
                                HazardKind::Chill => ElementalDamageKind::Chill,
                            }),
                        },
                    )
            }
        }),
{
    let h = hazards[a];
    if roll > h.spread_chance {
        return ;
    }
    let cs: i32 = if h.spread_chance >= 20 {
        h.spread_chance - 20
    } else {
        0
    };
    let cd: i32 = if h.dissipate_chance + 20 <= 10000 {
        h.dissipate_chance + 20
    } else {
        10000
    };
    let mut dx: i32 = -1;
    while dx <= 1
        invariant
            -1 <= dx <= 2,
            *map == *old(map),
            hazards@ == old(hazards)@,
            forall|ex: int, ey: int|
                crate::routing::neighbor8(ex, ey) && ex < dx ==> !hazard_spawnable(
                    *old(map),
                    h.kind,
                    h.pos.x + ex,
                    h.pos.y + ey,
                ),
        decreases 2 - dx,
    {
        let mut dy: i32 = -1;
        while dy <= 1
            invariant
                -1 <= dx <= 1,
                -1 <= dy <= 2,
                *map == *old(map),
                hazards@ == old(hazards)@,
                forall|ex: int, ey: int|
                    crate::routing::neighbor8(ex, ey) && ex < dx ==> !hazard_spawnable(
                        *old(map),
                        h.kind,
                        h.pos.x + ex,
                        h.pos.y + ey,
                    ),
                forall|ey: int|
                    crate::routing::neighbor8(dx as int, ey) && ey < dy ==> !hazard_spawnable(
                        *old(map),
                        h.kind,
                        h.pos.x + dx,
                        h.pos.y + ey,
                    ),
            decreases 2 - dy,
        {
            if !(dx == 0 && dy == 0) {
                let nx = h.pos.x + dx;
                let ny = h.pos.y + dy;
                if 0 <= nx && nx < map.width && 0 <= ny && ny < map.height {
                    let r = spawn_hazard(
                        map,
                        hazards,
                        h.kind,
                        nx,
                        ny,
                        cs,
                        cd,
                        h.contact_damage,
                    );
                    if r.is_some() {
                        proof {
                            assert(crate::routing::neighbor8(dx as int, dy as int));
                            assert(hazard_spawnable(*old(map), h.kind, h.pos.x + dx, h.pos.y + dy));
                            assert(hazards@ == old(hazards)@.push(
                                Hazard {
                                    kind: h.kind,
                                    pos: Position {
                                        x: (h.pos.x + dx) as i32,
                                        y: (h.pos.y + dy) as i32,
                                    },
                                    spread_chance: child_spread(h.spread_chance) as i32,
                                    dissipate_chance: child_dissipate(h.dissipate_chance) as i32,
                                    contact_damage: h.contact_damage,
                                    damage_kind: (match h.kind {
                                        HazardKind::Fire => ElementalDamageKind::Fire,
                                        HazardKind::Chill => ElementalDamageKind::Chill,
                                    }),
                                },
                            ));
                            assert(forall|ex: int, ey: int|
                                crate::routing::neighbor8(ex, ey) && offset_lt(
                                    ex,
                                    ey,
                                    dx as int,
                                    dy as int,
                                ) ==> !hazard_spawnable(
                                    *old(map),
                                    h.kind,
                                    h.pos.x + ex,
                                    h.pos.y + ey,
                                ));
                        }
                        return ;
                    }
                }
            }
            dy += 1;
        }
        dx += 1;
    }
}

/// One dissipation step for the hazard at index `a`, driven by a percentile
/// roll: within the dissipation chance the hazard self-destroys through the
/// destroy operation, otherwise nothing changes.
pub fn hazard_dissipate_step(map: &mut GameMap, hazards: &mut Vec<Hazard>, a: usize, roll: i32)
    requires
        old(map).wf(),
        hazards_consistent(*old(map), old(hazards)@),
        hazard_chances_bounded(old(hazards)@),
        a < old(hazards)@.len(),
        1 <= roll,
    ensures
        final(map).wf(),
        hazards_consistent(*final(map), final(hazards)@),
        hazard_chances_bounded(final(hazards)@),
        *final(map) == (GameMap { fire: final(map).fire, chill: final(map).chill, ..*old(map) }),
        ({
            let h = old(hazards)@[a as int];
            if roll <= h.dissipate_chance {
                &&& final(hazards)@ == old(hazards)@.remove(a as int)
                &&& (h.kind is Fire ==> final(map).fire@ == old(map).fire@.update(
                    old(map).spec_pos_idx(h.pos),
                    false,
                ))
                &&& (h.kind is Chill ==> final(map).chill@ == old(map).chill@.update(
                    old(map).spec_pos_idx(h.pos),
                    false,
                ))
            } else {
                *final(map) == *old(map) && final(hazards)@ == old(hazards)@
            }
        }),
{
    let h = hazards[a];
    if roll <= h.dissipate_chance {
        destroy_hazard(map, hazards, a);
    }
}

/// One hazard tick: every hazard alive at the start of the tick first rolls
/// to spread a weaker copy onto an adjacent tile, then rolls to dissipate.
/// Copies created this tick neither spread nor dissipate before the next
/// tick.  The flag/entity agreement invariant holds throughout.
#[verifier::loop_isolation(false)]
pub fn hazard_tick(
    map: &mut GameMap,
    hazards: &mut Vec<Hazard>,
    rng: &mut rltk::RandomNumberGenerator,
)
    requires
        old(map).wf(),
        hazards_consistent(*old(map), old(hazards)@),
        hazard_chances_bounded(old(hazards)@),
    ensures
        final(map).wf(),
        hazards_consistent(*final(map), final(hazards)@),
        hazard_chances_bounded(final(hazards)@),
        *final(map) == (GameMap { fire: final(map).fire, chill: final(map).chill, ..*old(map) }),
{
    let n0 = hazards.len();
    let mut a: usize = 0;
    while a < n0
        invariant
            map.wf(),
            hazards_consistent(*map, hazards@),
            hazard_chances_bounded(hazards@),
            *map == (GameMap { fire: map.fire, chill: map.chill, ..*old(map) }),
            n0 <= hazards@.len(),
        decreases n0 - a,
    {
        let roll = rng_roll_dice(rng, 1, 100);
        hazard_spread_step(map, hazards, a, roll);
        a += 1;
    }
    let mut b: usize = n0;
    while b > 0
        invariant
            map.wf(),
            hazards_consistent(*map, hazards@),
            hazard_chances_bounded(hazards@),
            *map == (GameMap { fire: map.fire, chill: map.chill, ..*old(map) }),
            b <= hazards@.len(),
        decreases b,
    {
        b -= 1;
        let roll = rng_roll_dice(rng, 1, 100);
        hazard_dissipate_step(map, hazards, b, roll);
    }
}

} // verus!
