//! The monster AI decision engine: the per-tick eligibility gate and the
//! three behaviour variants (basic chaser, attack spellcaster, support
//! spellcaster), each consuming the shared map, viewshed and routing state
//! and producing movement or attack/cast intents.

use vstd::prelude::*;
use crate::components::{
    chebyshev_dist, coord_bounded, is_next_to, l_infinity_dist, next_to, sq_euclid_dist, Monster,
    MonsterAI, MonsterClericAI, MovementRoutingOptions, Position, SpellCharges, Viewshed,
    WantsToMeleeAttack, WantsToUseTargeted,
};
use crate::map::GameMap;
use crate::rng::rng_range;
use crate::routing::{
    cost_field, cost_field_for, exit_ok, find_lowest_exit, is_neighbor_idx, neighbor8,
    spec_passable, COST_CAP,
};

verus! {

//---------------------------------------------------------------------------
// Eligibility gate
//---------------------------------------------------------------------------
pub struct MonsterCanActSystem {}

impl MonsterCanActSystem {
    /// Grants the per-tick eligibility marker to every monster that does not
    /// carry a frozen ailment, and withholds it from every monster that
    /// does.  Runs once per tick, before any AI decision system.
    #[verifier::loop_isolation(false)]
    pub fn run(&mut self, monsters: &mut Vec<Monster>)
        ensures
            final(monsters)@.len() == old(monsters)@.len(),
            forall|i: int|
                0 <= i < old(monsters)@.len() ==> (#[trigger] final(monsters)@[i]).can_act == (old(
                    monsters,
                )@[i].frozen is None),
            forall|i: int|
                0 <= i < old(monsters)@.len() ==> #[trigger] final(monsters)@[i] == (Monster {
                    can_act: final(monsters)@[i].can_act,
                    ..old(monsters)@[i]
                }),
    {
        let ghost ms0 = monsters@;
        let mut i: usize = 0;
        while i < monsters.len()
            invariant
                0 <= i <= ms0.len(),
                monsters@.len() == ms0.len(),
                forall|j: int| i <= j < ms0.len() ==> monsters@[j] == ms0[j],
                forall|j: int|
                    0 <= j < i ==> (#[trigger] monsters@[j]).can_act == (ms0[j].frozen is None),
                forall|j: int|
                    0 <= j < i ==> #[trigger] monsters@[j] == (Monster {
                        can_act: monsters@[j].can_act,
                        ..ms0[j]
                    }),
            decreases ms0.len() - i,
        {
            let ghost msi = monsters@;
            let mut m = monsters.remove(i);
            m.can_act = m.frozen.is_none();
            let ghost mfin = m;
            monsters.insert(i, m);
            proof {
                assert(monsters@ =~= msi.update(i as int, mfin));
            }
            i += 1;
        }
    }
}

//---------------------------------------------------------------------------
// Movement helpers
//---------------------------------------------------------------------------

/// Moves a monster onto the target tile unless that tile is blocked: the
/// blocked grid gives up the old tile and claims the new one, and the
/// viewshed is marked for recomputation.  A blocked target leaves everything
/// unchanged.
pub fn move_monster(
    map: &mut GameMap,
    pos: &mut Position,
    newposx: i32,
    newposy: i32,
    viewshed: &mut Viewshed,
)
    requires
        old(map).wf(),
        old(map).pos_in_bounds(*old(pos)),
        old(map).in_bounds(newposx as int, newposy as int),
    ensures
        final(map).wf(),
        *final(map) == (GameMap { blocked: final(map).blocked, ..*old(map) }),
        final(map).blocked@.len() == old(map).blocked@.len(),
        ({
            let new_idx = old(map).spec_idx(newposx as int, newposy as int);
            let old_idx = old(map).spec_pos_idx(*old(pos));
            if old(map).blocked@[new_idx] {
                &&& *final(pos) == *old(pos)
                &&& final(map).blocked@ == old(map).blocked@
                &&& *final(viewshed) == *old(viewshed)
            } else {
                &&& *final(pos) == (Position { x: newposx, y: newposy })
                &&& final(map).blocked@ == old(map).blocked@.update(old_idx, false).update(
                    new_idx,
                    true,
                )
                &&& final(viewshed).dirty
                &&& final(viewshed).visible_tiles@ == old(viewshed).visible_tiles@
                &&& final(viewshed).range == old(viewshed).range
            }
        }),
{
    let new_idx = map.xy_idx(newposx, newposy);
    let old_idx = map.pos_idx(*pos);
    if map.blocked[new_idx] {
        return ;
    }
    map.blocked[old_idx] = false;
    map.blocked[new_idx] = true;
    pos.x = newposx;
    pos.y = newposy;
    viewshed.dirty = true;
}

/// Draws a random adjacent tile; yields the monster's own tile when the
/// draw lands out of bounds or on a blocked tile.
pub fn random_adjacent_position(
    map: &GameMap,
    pos: Position,
    rng: &mut rltk::RandomNumberGenerator,
) -> (r: (i32, i32))
    requires
        map.wf(),
        map.pos_in_bounds(pos),
    ensures
        map.in_bounds(r.0 as int, r.1 as int),
        chebyshev_dist(pos, Position { x: r.0, y: r.1 }) <= 1,
        !map.blocked@[map.spec_idx(r.0 as int, r.1 as int)] || (r.0 == pos.x && r.1 == pos.y),
{
    let dx = rng_range(rng, -1, 2);
    let dy = rng_range(rng, -1, 2);
    let nx = pos.x + dx;
    let ny = pos.y + dy;
    if 0 <= nx && nx < map.width && 0 <= ny && ny < map.height {
        let idx = map.xy_idx(nx, ny);
        if !map.blocked[idx] {
            return (nx, ny);
        }
    }
    (pos.x, pos.y)
}

/// A tile whose index is one king move away lies at Chebyshev distance one.
pub proof fn lemma_neighbor_idx_adjacent(m: GameMap, pos: Position, np: Position)
    requires
        m.wf(),
        m.pos_in_bounds(pos),
        m.pos_in_bounds(np),
        is_neighbor_idx(m, pos, m.spec_pos_idx(np)),
    ensures
        chebyshev_dist(pos, np) == 1,
{
    let (dx, dy) = choose|dx: int, dy: int|
        neighbor8(dx, dy) && m.in_bounds(pos.x + dx, pos.y + dy) && #[trigger] m.spec_idx(
            pos.x + dx,
            pos.y + dy,
        ) == m.spec_pos_idx(np);
    m.lemma_idx_injective(pos.x + dx, pos.y + dy, np.x as int, np.y as int);
}

//---------------------------------------------------------------------------
// Stand-off position selection
//---------------------------------------------------------------------------

/// Tile index `i` lies on the Chebyshev ring at distance `d` around `c`.
pub open spec fn on_ring_idx(m: GameMap, c: Position, d: int, i: int) -> bool {
    exists|x: int, y: int|
        m.in_bounds(x, y) && chebyshev_dist(Position { x: x as i32, y: y as i32 }, c) == d
            && #[trigger] m.spec_idx(x, y) == i
}

/// The seed set of the stand-off ring around `c` at distance `d`.
pub open spec fn ring_seedp(m: GameMap, c: Position, d: int) -> spec_fn(int) -> bool {
    |i: int| on_ring_idx(m, c, d, i)
}

/// The seed set holding only the target tile itself (pursuit pathfinding).
pub open spec fn point_seedp(m: GameMap, t: Position) -> spec_fn(int) -> bool {
    |i: int| i == m.spec_pos_idx(t)
}

/// Picks the next step toward the ring of tiles at exactly the configured
/// Chebyshev distance from the player: the ring seeds a cost field and the
/// monster follows the steepest descent.  No result when no ring tile is
/// reachable within the cost cap.
pub fn get_position_at_range_from_player(
    map: &GameMap,
    routing_options: &MovementRoutingOptions,
    ppos: Position,
    pos: Position,
    distance_to_keep_away: i32,
) -> (r: Option<usize>)
    requires
        map.wf(),
        map.pos_in_bounds(ppos),
        map.pos_in_bounds(pos),
        0 <= distance_to_keep_away <= 100000,
    ensures
        r matches Some(j) ==> j < map.area() && spec_passable(*map, *routing_options, j as int)
            && is_neighbor_idx(*map, pos, j as int),
        exists|dist: Seq<i32>|
            #![auto]
            cost_field_for(
                *map,
                *routing_options,
                ring_seedp(*map, ppos, distance_to_keep_away as int),
                dist,
            ) && exit_ok(*map, *routing_options, dist, pos, r),
{
    let ghost d = distance_to_keep_away as int;
    let circle = map.get_l_infinity_circle_around(ppos, distance_to_keep_away);
    let mut seeds: Vec<usize> = Vec::new();
    let mut k: usize = 0;
    while k < circle.len()
        invariant
            map.wf(),
            forall|j: int|
                0 <= j < circle@.len() ==> map.pos_in_bounds(#[trigger] circle@[j]),
            seeds@.len() == k <= circle@.len(),
            forall|kk: int|
                0 <= kk < k ==> seeds@[kk] == map.spec_pos_idx(#[trigger] circle@[kk]),
        decreases circle@.len() - k,
    {
        seeds.push(map.pos_idx(circle[k]));
        k += 1;
    }
    proof {
        assert forall|i: int| 0 <= i < map.area() implies (crate::routing::is_seed(seeds@, i)
            == on_ring_idx(*map, ppos, d, i)) by {
            if crate::routing::is_seed(seeds@, i) {
                let kk = choose|kk: int| 0 <= kk < seeds@.len() && seeds@[kk] == i;
                let p = circle@[kk];
                assert(map.pos_in_bounds(p) && chebyshev_dist(p, ppos) == d);
                assert(p == (Position { x: p.x, y: p.y }));
                assert(map.spec_idx(p.x as int, p.y as int) == i);
                assert(on_ring_idx(*map, ppos, d, i));
            }
            if on_ring_idx(*map, ppos, d, i) {
                let (x, y) = choose|x: int, y: int|
                    map.in_bounds(x, y) && chebyshev_dist(
                        Position { x: x as i32, y: y as i32 },
                        ppos,
                    ) == d && #[trigger] map.spec_idx(x, y) == i;
                let p = Position { x: x as i32, y: y as i32 };
                assert(circle@.contains(p));
                let kk = choose|kk: int| 0 <= kk < circle@.len() && circle@[kk] == p;
                assert(seeds@[kk] == map.spec_pos_idx(p));
                assert(crate::routing::is_seed(seeds@, i));
            }
        }
    }
    let dist = cost_field(map, routing_options, &seeds);
    let r = find_lowest_exit(map, routing_options, &dist, pos);
    proof {
        let seedp = ring_seedp(*map, ppos, d);
        assert forall|i: int| 0 <= i < map.area() implies (#[trigger] seedp(i) == on_ring_idx(
            *map,
            ppos,
            d,
            i,
        )) by {}
        assert forall|i: int|
            0 <= i < map.area() && #[trigger] seedp(i) && spec_passable(
                *map,
                *routing_options,
                i,
            ) implies dist@[i] == 0 by {
            assert(crate::routing::is_seed(seeds@, i));
            let kk = choose|kk: int| 0 <= kk < seeds@.len() && seeds@[kk] == i;
            assert(seeds@[kk] < map.area() && spec_passable(
                *map,
                *routing_options,
                seeds@[kk] as int,
            ));
        }
        assert(cost_field_for(*map, *routing_options, seedp, dist@));
    }
    r
}

/// The outcome of following a cost field for one step: either no passable
/// neighbor reaches the field (stay put), or the monster took the chosen
/// steepest-descent exit — refused, leaving it in place, exactly when that
/// exit tile was blocked.  `opos`/`odirty` are the position and viewshed
/// flag before the step, `npos`/`ndirty` after.
pub open spec fn step_chosen_ok(
    mmap: GameMap,
    opts: MovementRoutingOptions,
    dist: Seq<i32>,
    opos: Position,
    odirty: bool,
    npos: Position,
    ndirty: bool,
) -> bool {
    ||| (exit_ok(mmap, opts, dist, opos, None) && npos == opos && ndirty == odirty)
    ||| (exists|j: usize|
        #![auto]
        exit_ok(mmap, opts, dist, opos, Some(j)) && move_result_ok(
            mmap,
            j as int,
            opos,
            odirty,
            npos,
            ndirty,
        ))
}

/// The outcome of `move_monster` toward tile `j`: refused on a blocked
/// tile, otherwise the monster stands on `j` with its viewshed dirtied.
pub open spec fn move_result_ok(
    mmap: GameMap,
    j: int,
    opos: Position,
    odirty: bool,
    npos: Position,
    ndirty: bool,
) -> bool {
    if mmap.blocked@[j] {
        npos == opos && ndirty == odirty
    } else {
        mmap.pos_in_bounds(npos) && mmap.spec_pos_idx(npos) == j && ndirty
    }
}

/// As `step_chosen_ok`, but for a buffered move applied after the decision
/// pass: the blocked test happens at apply time against a later map, so a
/// chosen exit may also be dropped, leaving the monster in place.
pub open spec fn buffered_step_ok(
    mmap: GameMap,
    opts: MovementRoutingOptions,
    dist: Seq<i32>,
    opos: Position,
    odirty: bool,
    npos: Position,
    ndirty: bool,
) -> bool {
    ||| (exit_ok(mmap, opts, dist, opos, None) && npos == opos && ndirty == odirty)
    ||| (exists|j: usize|
        #![auto]
        exit_ok(mmap, opts, dist, opos, Some(j)) && ((mmap.pos_in_bounds(npos)
            && mmap.spec_pos_idx(npos) == j && ndirty) || (npos == opos && ndirty == odirty)))
}

/// One pursuit step: a cost field seeded at the target's own tile, followed
/// one steepest-descent step (when any path within the cap exists).
pub open spec fn pursuit_step_ok(
    mmap: GameMap,
    opts: MovementRoutingOptions,
    ppos: Position,
    opos: Position,
    odirty: bool,
    npos: Position,
    ndirty: bool,
) -> bool {
    exists|dist: Seq<i32>|
        #![auto]
        cost_field_for(mmap, opts, point_seedp(mmap, ppos), dist) && step_chosen_ok(
            mmap,
            opts,
            dist,
            opos,
            odirty,
            npos,
            ndirty,
        )
}

/// One stand-off step toward the ring at distance `d` around `ppos`.
pub open spec fn standoff_step_ok(
    mmap: GameMap,
    opts: MovementRoutingOptions,
    ppos: Position,
    d: int,
    opos: Position,
    odirty: bool,
    npos: Position,
    ndirty: bool,
) -> bool {
    exists|dist: Seq<i32>|
        #![auto]
        cost_field_for(mmap, opts, ring_seedp(mmap, ppos, d), dist) && step_chosen_ok(
            mmap,
            opts,
            dist,
            opos,
            odirty,
            npos,
            ndirty,
        )
}

/// A single-element seed vector holding the target tile gives a cost field
/// for the pursuit seed set.
proof fn lemma_point_field(
    m: GameMap,
    opts: MovementRoutingOptions,
    ppos: Position,
    seeds: Seq<usize>,
    dist: Seq<i32>,
)
    requires
        m.wf(),
        m.pos_in_bounds(ppos),
        seeds.len() == 1,
        seeds[0] == m.spec_pos_idx(ppos),
        dist.len() == m.area(),
        forall|i: int| 0 <= i < m.area() ==> 0 <= #[trigger] dist[i] <= COST_CAP,
        forall|i: int|
            0 <= i < m.area() && #[trigger] dist[i] < COST_CAP ==> spec_passable(m, opts, i),
        forall|i: int|
            0 <= i < m.area() && #[trigger] dist[i] == 0 ==> crate::routing::is_seed(seeds, i),
        forall|k: int|
            0 <= k < seeds.len() && #[trigger] seeds[k] < m.area() && spec_passable(
                m,
                opts,
                seeds[k] as int,
            ) ==> dist[seeds[k] as int] == 0,
        forall|x: int, y: int|
            #![trigger m.spec_idx(x, y)]
            m.in_bounds(x, y) && 0 < dist[m.spec_idx(x, y)] < COST_CAP
                ==> crate::routing::has_lower_neighbor(m, dist, x, y),
        crate::routing::no_cost_gap(m, opts, dist, COST_CAP - 1),
    ensures
        cost_field_for(m, opts, point_seedp(m, ppos), dist),
{
    let seedp = point_seedp(m, ppos);
    m.lemma_idx_bounds(ppos.x as int, ppos.y as int);
    assert forall|i: int| 0 <= i < m.area() implies (#[trigger] seedp(i) == (i == m.spec_pos_idx(
        ppos,
    ))) by {}
    assert forall|i: int|
        0 <= i < m.area() && #[trigger] seedp(i) && spec_passable(m, opts, i) implies dist[i]
        == 0 by {
        assert(seeds[0] < m.area() && spec_passable(m, opts, seeds[0] as int));
    }
    assert forall|i: int| 0 <= i < m.area() && #[trigger] dist[i] == 0 implies seedp(i) by {
        assert(crate::routing::is_seed(seeds, i));
        let kk = choose|kk: int| 0 <= kk < seeds.len() && (#[trigger] seeds[kk]) == i;
        assert(kk == 0);
    }
}

/// How the map evolves across one monster's turn: only the blocked grid
/// changes, and exactly as `move_monster` rewrites it.
pub open spec fn map_step_ok(m0: GameMap, m1: GameMap, o: Monster, m: Monster) -> bool {
    &&& m1 == (GameMap { blocked: m1.blocked, ..m0 })
    &&& if m.pos == o.pos {
        m1.blocked@ == m0.blocked@ || m1.blocked@ == m0.blocked@.update(
            m0.spec_pos_idx(o.pos),
            true,
        )
    } else {
        m1.blocked@ == m0.blocked@.update(m0.spec_pos_idx(o.pos), false).update(
            m0.spec_pos_idx(m.pos),
            true,
        )
    }
}

//---------------------------------------------------------------------------
// Basic melee-chaser AI
//---------------------------------------------------------------------------

/// The target is inside the monster's current viewshed.
pub open spec fn target_visible(m: Monster, ppos: Position) -> bool {
    m.viewshed.visible_tiles@.contains(ppos)
}

/// The fields no AI decision may touch.
pub open spec fn ai_frame_unchanged(o: Monster, m: Monster) -> bool {
    &&& m.stats == o.stats
    &&& m.frozen == o.frozen
    &&& m.burning == o.burning
    &&& m.spells@ == o.spells@
    &&& m.wants_take_damage@ == o.wants_take_damage@
    &&& m.viewshed.visible_tiles@ == o.viewshed.visible_tiles@
    &&& m.viewshed.range == o.viewshed.range
}

/// One basic-AI decision, relating a monster before and after its turn on
/// the map state it saw.  Branch priority: adjacency dominates pursuit,
/// pursuit dominates wandering, and the turn is consumed in every branch.
pub open spec fn basic_decided(
    map_pre: GameMap,
    o: Monster,
    m: Monster,
    ppos: Position,
    player: usize,
) -> bool {
    let visible = target_visible(o, ppos);
    let ai_o = o.ai->Basic_0;
    let ai_m = m.ai->Basic_0;
    &&& !m.can_act
    &&& ai_frame_unchanged(o, m)
    &&& m.ai is Basic
    &&& ai_m.no_visibility_wander == ai_o.no_visibility_wander
    &&& ai_m.keep_following_turns_max == ai_o.keep_following_turns_max
    &&& ai_m.routing_options == ai_o.routing_options
    &&& m.wants_targeted == o.wants_targeted
    &&& map_pre.pos_in_bounds(m.pos)
    &&& if next_to(o.pos, ppos) {
        // Adjacency dominates: melee intent, no movement.
        &&& m.wants_melee == Some(WantsToMeleeAttack { target: player })
        &&& m.pos == o.pos
        &&& m.viewshed.dirty == o.viewshed.dirty
        &&& ai_m.keep_following_turns == ai_o.keep_following_turns
    } else if visible || ai_o.keep_following_turns > 0 {
        // Pursuit: one steepest-descent step on the cost field seeded at
        // the target's tile, when any path within the cap exists.
        &&& m.wants_melee == o.wants_melee
        &&& ai_m.keep_following_turns == (if visible {
            ai_o.keep_following_turns_max as int
        } else {
            ai_o.keep_following_turns - 1
        })
        &&& ((m.pos == o.pos && m.viewshed.dirty == o.viewshed.dirty) || (chebyshev_dist(
            o.pos,
            m.pos,
        ) == 1 && m.viewshed.dirty))
        &&& pursuit_step_ok(
            map_pre,
            ai_o.routing_options,
            ppos,
            o.pos,
            o.viewshed.dirty,
            m.pos,
            m.viewshed.dirty,
        )
    } else if ai_o.no_visibility_wander {
        // Idle wandering: a random adjacent tile, taken only when it is
        // unblocked on the map the monster saw.
        &&& m.wants_melee == o.wants_melee
        &&& ai_m.keep_following_turns == ai_o.keep_following_turns
        &&& chebyshev_dist(o.pos, m.pos) <= 1
        &&& (o.viewshed.dirty ==> m.viewshed.dirty)
        &&& (m.pos == o.pos || (map_pre.pos_in_bounds(m.pos) && !map_pre.blocked@[
            map_pre.spec_pos_idx(m.pos)] && m.viewshed.dirty))
    } else {
        // No-op branch: only the turn is consumed.
        &&& m.wants_melee == o.wants_melee
        &&& ai_m.keep_following_turns == ai_o.keep_following_turns
        &&& m.pos == o.pos
        &&& m.viewshed.dirty == o.viewshed.dirty
    }
}

/// One basic-AI decision for a single monster, against the map as it
/// stands at the monster's turn.
#[verifier::loop_isolation(false)]
#[verifier::rlimit(100)]
fn basic_turn(
    map: &mut GameMap,
    ppos: Position,
    player: usize,
    m: &mut Monster,
    rng: &mut rltk::RandomNumberGenerator,
)
    requires
        old(map).wf(),
        old(map).pos_in_bounds(ppos),
        old(map).pos_in_bounds(old(m).pos),
        old(m).can_act,
        old(m).ai is Basic,
        old(m).ai->Basic_0.keep_following_turns > i32::MIN,
    ensures
        final(map).wf(),
        basic_decided(*old(map), *old(m), *final(m), ppos, player),
        map_step_ok(*old(map), *final(map), *old(m), *final(m)),
{
    let ghost map_turn = *old(map);
    let ghost pre = *old(m);
    match m.ai {
        MonsterAI::Basic(ai0) => {
            let mut ai = ai0;
            let in_viewshed = m.viewshed.contains(ppos);
            let keep_following = ai.keep_following_turns > 0;
            let next_to_player = is_next_to(m.pos, ppos);
            if next_to_player {
                m.wants_melee = Some(WantsToMeleeAttack { target: player });
            } else if in_viewshed || keep_following {
                let pidx = map.pos_idx(ppos);
                let mut seeds: Vec<usize> = Vec::new();
                seeds.push(pidx);
                let dist = cost_field(map, &ai.routing_options, &seeds);
                proof {
                    lemma_point_field(map_turn, ai.routing_options, ppos, seeds@, dist@);
                }
                let step = find_lowest_exit(map, &ai.routing_options, &dist, m.pos);
                let ghost opos = m.pos;
                let ghost odirty = m.viewshed.dirty;
                if let Some(j) = step {
                    let np = map.idx_pos(j);
                    proof {
                        lemma_neighbor_idx_adjacent(*map, m.pos, np);
                    }
                    move_monster(map, &mut m.pos, np.x, np.y, &mut m.viewshed);
                    proof {
                        assert(move_result_ok(
                            map_turn,
                            j as int,
                            opos,
                            odirty,
                            m.pos,
                            m.viewshed.dirty,
                        ));
                    }
                }
                proof {
                    assert(step_chosen_ok(
                        map_turn,
                        ai.routing_options,
                        dist@,
                        opos,
                        odirty,
                        m.pos,
                        m.viewshed.dirty,
                    ));
                    assert(pursuit_step_ok(
                        map_turn,
                        ai.routing_options,
                        ppos,
                        opos,
                        odirty,
                        m.pos,
                        m.viewshed.dirty,
                    ));
                }
                if in_viewshed {
                    ai.keep_following_turns = ai.keep_following_turns_max;
                } else {
                    ai.keep_following_turns = ai.keep_following_turns - 1;
                }
                m.ai = MonsterAI::Basic(ai);
            } else if ai.no_visibility_wander {
                let (nx, ny) = random_adjacent_position(map, m.pos, rng);
                move_monster(map, &mut m.pos, nx, ny, &mut m.viewshed);
                proof {
                    map_turn.lemma_idx_bounds(pre.pos.x as int, pre.pos.y as int);
                    map_turn.lemma_idx_bounds(nx as int, ny as int);
                    if m.pos == pre.pos && map.blocked@ != map_turn.blocked@ {
                        assert(map.blocked@ =~= map_turn.blocked@.update(
                            map_turn.spec_pos_idx(pre.pos),
                            true,
                        ));
                    }
                }
            }
            m.can_act = false;
        },
        _ => {
            proof {
                assert(false);
            }
        },
    }
}

pub struct MonsterBasicAISystem {}

impl MonsterBasicAISystem {
    /// Runs one decision for every eligible basic-AI monster: melee when
    /// adjacent to the target, otherwise pursue it while visible or recently
    /// seen, otherwise wander if configured to; the eligibility marker is
    /// consumed in every branch.
    #[verifier::loop_isolation(false)]
    #[verifier::rlimit(100)]
    pub fn run(
        &mut self,
        map: &mut GameMap,
        ppos: Position,
        player: usize,
        monsters: &mut Vec<Monster>,
        rng: &mut rltk::RandomNumberGenerator,
    )
        requires
            old(map).wf(),
            old(map).pos_in_bounds(ppos),
            forall|i: int|
                0 <= i < old(monsters)@.len() ==> old(map).pos_in_bounds(
                    (#[trigger] old(monsters)@[i]).pos,
                ),
            forall|i: int|
                0 <= i < old(monsters)@.len() ==> ((#[trigger] old(monsters)@[i]).ai matches
                    MonsterAI::Basic(b) ==> b.keep_following_turns > i32::MIN),
        ensures
            final(map).wf(),
            *final(map) == (GameMap { blocked: final(map).blocked, ..*old(map) }),
            final(map).blocked@.len() == old(map).blocked@.len(),
            final(monsters)@.len() == old(monsters)@.len(),
            exists|chain: Seq<GameMap>|
                #![auto]
                chain.len() == old(monsters)@.len() + 1 && chain[0] == *old(map) && chain[old(
                    monsters,
                )@.len() as int] == *final(map) && (forall|i: int|
                    0 <= i < old(monsters)@.len() ==> {
                        let o = old(monsters)@[i];
                        let m = #[trigger] final(monsters)@[i];
                        if o.can_act && o.ai is Basic {
                            basic_decided(chain[i], o, m, ppos, player) && map_step_ok(
                                chain[i],
                                chain[i + 1],
                                o,
                                m,
                            )
                        } else {
                            m == o && chain[i + 1] == chain[i]
                        }
                    }),
    {
        let ghost map0 = *map;
        let ghost ms0 = monsters@;
        let ghost mut chain: Seq<GameMap> = seq![*map];
        let mut i: usize = 0;
        while i < monsters.len()
            invariant
                map.wf(),
                *map == (GameMap { blocked: map.blocked, ..map0 }),
                map.blocked@.len() == map0.blocked@.len(),
                0 <= i <= ms0.len(),
                monsters@.len() == ms0.len(),
                forall|j: int| i <= j < ms0.len() ==> monsters@[j] == ms0[j],
                chain.len() == i + 1,
                chain[0] == map0,
                chain[i as int] == *map,
                forall|j: int|
                    0 <= j < i ==> {
                        let o = ms0[j];
                        let m = #[trigger] monsters@[j];
                        if o.can_act && o.ai is Basic {
                            basic_decided(chain[j], o, m, ppos, player) && map_step_ok(
                                chain[j],
                                chain[j + 1],
                                o,
                                m,
                            )
                        } else {
                            m == o && chain[j + 1] == chain[j]
                        }
                    },
            decreases ms0.len() - i,
        {
            let ghost msi = monsters@;
            let ghost map_turn = *map;
            let mut m = monsters.remove(i);
            proof {
                assert(old(monsters)@[i as int] == ms0[i as int]);
                assert(m == ms0[i as int]);
            }
            let is_basic = match m.ai {
                MonsterAI::Basic(_) => true,
                _ => false,
            };
            if m.can_act && is_basic {
                basic_turn(map, ppos, player, &mut m, rng);
            }
            let ghost mfin = m;
            monsters.insert(i, m);
            proof {
                assert(monsters@ =~= msi.update(i as int, mfin));
                chain = chain.push(*map);
            }
            i += 1;
        }
        proof {
            assert(chain[ms0.len() as int] == *map);
        }
    }
}

//---------------------------------------------------------------------------
// Attack spellcaster AI
//---------------------------------------------------------------------------

/// Some spell in the book still has a charge.
pub open spec fn spell_ready(spells: Seq<SpellCharges>) -> bool {
    exists|k: int| 0 <= k < spells.len() && (#[trigger] spells[k]).charges > 0
}

/// The monster casts the first charged spell in its book at the target.
pub open spec fn casts_first_charged(o: Monster, m: Monster, target: Position) -> bool {
    &&& m.wants_targeted matches Some(w) && w.target == target && w.thing < o.spells@.len()
        && o.spells@[w.thing as int].charges > 0 && (forall|k: int|
        0 <= k < w.thing ==> (#[trigger] o.spells@[k]).charges <= 0)
}

/// The index of the first spell with a remaining charge, if any.
#[verifier::loop_isolation(false)]
fn first_charged_spell(spells: &Vec<SpellCharges>) -> (r: Option<usize>)
    ensures
        r matches Some(k) ==> k < spells@.len() && spells@[k as int].charges > 0 && (forall|j: int|
            0 <= j < k ==> (#[trigger] spells@[j]).charges <= 0),
        r is None ==> forall|j: int|
            0 <= j < spells@.len() ==> (#[trigger] spells@[j]).charges <= 0,
{
    let mut k: usize = 0;
    while k < spells.len()
        invariant
            0 <= k <= spells@.len(),
            forall|j: int| 0 <= j < k ==> (#[trigger] spells@[j]).charges <= 0,
        decreases spells@.len() - k,
    {
        if spells[k].charges > 0 {
            return Some(k);
        }
        k += 1;
    }
    None
}

/// One attack-spellcaster decision.  Branch priority: cast at the visible
/// target when a charge is ready and the target is within the stand-off
/// distance; else melee when adjacent; else move toward the stand-off ring
/// while the target is visible; else no-op.  The turn is consumed in every
/// branch.
pub open spec fn attack_spellcaster_decided(
    map_pre: GameMap,
    o: Monster,
    m: Monster,
    ppos: Position,
    player: usize,
) -> bool {
    let visible = target_visible(o, ppos);
    let ai_o = o.ai->AttackSpellcaster_0;
    &&& !m.can_act
    &&& ai_frame_unchanged(o, m)
    &&& m.ai == o.ai
    &&& map_pre.pos_in_bounds(m.pos)
    &&& if visible && spell_ready(o.spells@) && chebyshev_dist(o.pos, ppos)
        <= ai_o.distance_to_keep_away {
        &&& casts_first_charged(o, m, ppos)
        &&& m.wants_melee == o.wants_melee
        &&& m.pos == o.pos
        &&& m.viewshed.dirty == o.viewshed.dirty
    } else if next_to(o.pos, ppos) {
        &&& m.wants_melee == Some(WantsToMeleeAttack { target: player })
        &&& m.wants_targeted == o.wants_targeted
        &&& m.pos == o.pos
        &&& m.viewshed.dirty == o.viewshed.dirty
    } else if visible {
        &&& m.wants_melee == o.wants_melee
        &&& m.wants_targeted == o.wants_targeted
        &&& ((m.pos == o.pos && m.viewshed.dirty == o.viewshed.dirty) || (chebyshev_dist(
            o.pos,
            m.pos,
        ) == 1 && m.viewshed.dirty))
        &&& standoff_step_ok(
            map_pre,
            ai_o.routing_options,
            ppos,
            ai_o.distance_to_keep_away as int,
            o.pos,
            o.viewshed.dirty,
            m.pos,
            m.viewshed.dirty,
        )
    } else {
        &&& m.wants_melee == o.wants_melee
        &&& m.wants_targeted == o.wants_targeted
        &&& m.pos == o.pos
        &&& m.viewshed.dirty == o.viewshed.dirty
    }
}

/// One attack-spellcaster decision for a single monster, against the map as
/// it stands at the monster's turn.
#[verifier::loop_isolation(false)]
#[verifier::rlimit(100)]
fn attack_spellcaster_turn(map: &mut GameMap, ppos: Position, player: usize, m: &mut Monster)
    requires
        old(map).wf(),
        old(map).pos_in_bounds(ppos),
        old(map).pos_in_bounds(old(m).pos),
        old(m).can_act,
        old(m).ai is AttackSpellcaster,
        0 <= old(m).ai->AttackSpellcaster_0.distance_to_keep_away <= 100000,
    ensures
        final(map).wf(),
        attack_spellcaster_decided(*old(map), *old(m), *final(m), ppos, player),
        map_step_ok(*old(map), *final(map), *old(m), *final(m)),
{
    let ghost map_turn = *old(map);
    match m.ai {
        MonsterAI::AttackSpellcaster(ai) => {
            let in_viewshed = m.viewshed.contains(ppos);
            let next_to_player = is_next_to(m.pos, ppos);
            let l_infinity_distance_to_player = l_infinity_dist(m.pos, ppos);
            let spell_to_cast = first_charged_spell(&m.spells);
            let has_spell_to_cast = spell_to_cast.is_some();
            if in_viewshed && has_spell_to_cast && l_infinity_distance_to_player
                <= ai.distance_to_keep_away {
                if let Some(spell) = spell_to_cast {
                    m.wants_targeted = Some(WantsToUseTargeted { thing: spell, target: ppos });
                }
            } else if next_to_player {
                m.wants_melee = Some(WantsToMeleeAttack { target: player });
            } else if in_viewshed {
                let target_idx = get_position_at_range_from_player(
                    map,
                    &ai.routing_options,
                    ppos,
                    m.pos,
                    ai.distance_to_keep_away,
                );
                let ghost opos = m.pos;
                let ghost odirty = m.viewshed.dirty;
                let ghost gd = ai.distance_to_keep_away as int;
                let ghost gdist = choose|dist: Seq<i32>|
                    #![auto]
                    cost_field_for(map_turn, ai.routing_options, ring_seedp(map_turn, ppos, gd), dist)
                        && exit_ok(map_turn, ai.routing_options, dist, opos, target_idx);
                if let Some(j) = target_idx {
                    let np = map.idx_pos(j);
                    proof {
                        lemma_neighbor_idx_adjacent(*map, m.pos, np);
                    }
                    move_monster(map, &mut m.pos, np.x, np.y, &mut m.viewshed);
                    proof {
                        assert(move_result_ok(
                            map_turn,
                            j as int,
                            opos,
                            odirty,
                            m.pos,
                            m.viewshed.dirty,
                        ));
                    }
                }
                proof {
                    assert(step_chosen_ok(
                        map_turn,
                        ai.routing_options,
                        gdist,
                        opos,
                        odirty,
                        m.pos,
                        m.viewshed.dirty,
                    ));
                    assert(standoff_step_ok(
                        map_turn,
                        ai.routing_options,
                        ppos,
                        gd,
                        opos,
                        odirty,
                        m.pos,
                        m.viewshed.dirty,
                    ));
                }
            }
            m.can_act = false;
        },
        _ => {
            proof {
                assert(false);
            }
        },
    }
}

pub struct MonsterAttackSpellcasterAISystem {}

impl MonsterAttackSpellcasterAISystem {
    /// Runs one decision for every eligible attack-spellcaster: cast the
    /// first charged spell at a visible in-range target, else melee when
    /// adjacent, else keep the configured stand-off distance while waiting
    /// for charges; the eligibility marker is consumed in every branch.
    #[verifier::loop_isolation(false)]
    pub fn run(
        &mut self,
        map: &mut GameMap,
        ppos: Position,
        player: usize,
        monsters: &mut Vec<Monster>,
    )
        requires
            old(map).wf(),
            old(map).pos_in_bounds(ppos),
            forall|i: int|
                0 <= i < old(monsters)@.len() ==> old(map).pos_in_bounds(
                    (#[trigger] old(monsters)@[i]).pos,
                ),
            forall|i: int|
                0 <= i < old(monsters)@.len() ==> ((#[trigger] old(monsters)@[i]).ai matches
                    MonsterAI::AttackSpellcaster(a) ==> 0 <= a.distance_to_keep_away <= 100000),
        ensures
            final(map).wf(),
            *final(map) == (GameMap { blocked: final(map).blocked, ..*old(map) }),
            final(map).blocked@.len() == old(map).blocked@.len(),
            final(monsters)@.len() == old(monsters)@.len(),
            exists|chain: Seq<GameMap>|
                #![auto]
                chain.len() == old(monsters)@.len() + 1 && chain[0] == *old(map) && chain[old(
                    monsters,
                )@.len() as int] == *final(map) && (forall|i: int|
                    0 <= i < old(monsters)@.len() ==> {
                        let o = old(monsters)@[i];
                        let m = #[trigger] final(monsters)@[i];
                        if o.can_act && o.ai is AttackSpellcaster {
                            attack_spellcaster_decided(chain[i], o, m, ppos, player)
                                && map_step_ok(chain[i], chain[i + 1], o, m)
                        } else {
                            m == o && chain[i + 1] == chain[i]
                        }
                    }),
    {
        let ghost map0 = *map;
        let ghost ms0 = monsters@;
        let ghost mut chain: Seq<GameMap> = seq![*map];
        let mut i: usize = 0;
        while i < monsters.len()
            invariant
                map.wf(),
                *map == (GameMap { blocked: map.blocked, ..map0 }),
                map.blocked@.len() == map0.blocked@.len(),
                0 <= i <= ms0.len(),
                monsters@.len() == ms0.len(),
                forall|j: int| i <= j < ms0.len() ==> monsters@[j] == ms0[j],
                chain.len() == i + 1,
                chain[0] == map0,
                chain[i as int] == *map,
                forall|j: int|
                    0 <= j < i ==> {
                        let o = ms0[j];
                        let m = #[trigger] monsters@[j];
                        if o.can_act && o.ai is AttackSpellcaster {
                            attack_spellcaster_decided(chain[j], o, m, ppos, player)
                                && map_step_ok(chain[j], chain[j + 1], o, m)
                        } else {
                            m == o && chain[j + 1] == chain[j]
                        }
                    },
            decreases ms0.len() - i,
        {
            let ghost msi = monsters@;
            let mut m = monsters.remove(i);
            proof {
                assert(old(monsters)@[i as int] == ms0[i as int]);
                assert(m == ms0[i as int]);
            }
            let is_caster = match m.ai {
                MonsterAI::AttackSpellcaster(_) => true,
                _ => false,
            };
            if m.can_act && is_caster {
                attack_spellcaster_turn(map, ppos, player, &mut m);
            }
            let ghost mfin = m;
            monsters.insert(i, m);
            proof {
                assert(monsters@ =~= msi.update(i as int, mfin));
                chain = chain.push(*map);
            }
            i += 1;
        }
        proof {
            assert(chain[ms0.len() as int] == *map);
        }
    }
}

//---------------------------------------------------------------------------
// Support spellcaster (cleric) AI
//---------------------------------------------------------------------------

/// Squared Euclidean distance, computed without overflow.
fn sq_euclid(p: Position, q: Position) -> (r: i64)
    requires
        coord_bounded(p),
        coord_bounded(q),
    ensures
        r == sq_euclid_dist(p, q),
{
    let dx: i64 = p.x as i64 - q.x as i64;
    let dy: i64 = p.y as i64 - q.y as i64;
    proof {
        assert(dx * dx <= 200000 * 200000 && dx * dx >= 0) by (nonlinear_arith)
            requires
                -200000 <= dx <= 200000,
        ;
        assert(dy * dy <= 200000 * 200000 && dy * dy >= 0) by (nonlinear_arith)
            requires
                -200000 <= dy <= 200000,
        ;
    }
    dx * dx + dy * dy
}

/// The first point of the ring at maximal Euclidean distance from `ppos`:
/// the seed the support variant reduces each ally's ring to.
#[verifier::loop_isolation(false)]
fn furthest_point_from(circle: &Vec<Position>, ppos: Position) -> (r: Option<Position>)
    requires
        forall|k: int| 0 <= k < circle@.len() ==> coord_bounded(#[trigger] circle@[k]),
        coord_bounded(ppos),
    ensures
        (r is None) <==> circle@.len() == 0,
        r matches Some(p) ==> exists|k: int|
            0 <= k < circle@.len() && #[trigger] circle@[k] == p && (forall|j: int|
                0 <= j < circle@.len() ==> sq_euclid_dist(#[trigger] circle@[j], ppos)
                    <= sq_euclid_dist(p, ppos)) && (forall|j: int|
                0 <= j < k ==> sq_euclid_dist(#[trigger] circle@[j], ppos) < sq_euclid_dist(
                    p,
                    ppos,
                )),
{
    if circle.len() == 0 {
        return None;
    }
    let mut best_k: usize = 0;
    let mut best_sq: i64 = sq_euclid(circle[0], ppos);
    let mut j: usize = 1;
    while j < circle.len()
        invariant
            circle@.len() > 0,
            0 <= best_k < j <= circle@.len(),
            best_sq == sq_euclid_dist(circle@[best_k as int], ppos),
            forall|jj: int|
                0 <= jj < j ==> sq_euclid_dist(#[trigger] circle@[jj], ppos) <= best_sq,
            forall|jj: int|
                0 <= jj < best_k ==> sq_euclid_dist(#[trigger] circle@[jj], ppos) < best_sq,
        decreases circle@.len() - j,
    {
        let sq = sq_euclid(circle[j], ppos);
        if sq > best_sq {
            best_k = j;
            best_sq = sq;
        }
        j += 1;
    }
    Some(circle[best_k])
}

/// The unique stand-off seed an ally's ring contributes: the ring point at
/// maximal Euclidean distance from the player, the lexicographically least
/// on ties (matching the ring's scan order).
pub open spec fn furthest_ring_point(
    m: GameMap,
    center: Position,
    d: int,
    ppos: Position,
    p: Position,
) -> bool {
    &&& m.pos_in_bounds(p)
    &&& chebyshev_dist(p, center) == d
    &&& (forall|q: Position|
        m.pos_in_bounds(q) && chebyshev_dist(q, center) == d ==> #[trigger] sq_euclid_dist(
            q,
            ppos,
        ) <= sq_euclid_dist(p, ppos))
    &&& (forall|q: Position|
        m.pos_in_bounds(q) && chebyshev_dist(q, center) == d && #[trigger] sq_euclid_dist(q, ppos)
            == sq_euclid_dist(p, ppos) ==> !crate::components::pos_lex_lt(q, p))
}

/// At most one point of a ring is its furthest-from-player seed.
pub proof fn lemma_furthest_ring_point_unique(
    m: GameMap,
    center: Position,
    d: int,
    ppos: Position,
    p1: Position,
    p2: Position,
)
    requires
        furthest_ring_point(m, center, d, ppos, p1),
        furthest_ring_point(m, center, d, ppos, p2),
    ensures
        p1 == p2,
{
    assert(sq_euclid_dist(p1, ppos) == sq_euclid_dist(p2, ppos));
    assert(!crate::components::pos_lex_lt(p1, p2) && !crate::components::pos_lex_lt(p2, p1));
    assert(p1 == (Position { x: p1.x, y: p1.y }));
    assert(p2 == (Position { x: p2.x, y: p2.y }));
}

/// The first index-order maximum of a complete, lex-sorted ring enumeration
/// is the ring's furthest-from-player seed point.
proof fn lemma_first_argmax_is_furthest(
    m: GameMap,
    center: Position,
    d: int,
    ppos: Position,
    circle: Seq<Position>,
    p: Position,
    k: int,
)
    requires
        forall|j: int|
            0 <= j < circle.len() ==> m.pos_in_bounds(#[trigger] circle[j]) && chebyshev_dist(
                circle[j],
                center,
            ) == d,
        forall|q: Position|
            m.pos_in_bounds(q) && chebyshev_dist(q, center) == d ==> circle.contains(q),
        forall|i: int, j: int|
            0 <= i < j < circle.len() ==> crate::components::pos_lex_lt(
                #[trigger] circle[i],
                #[trigger] circle[j],
            ),
        0 <= k < circle.len(),
        circle[k] == p,
        forall|j: int|
            0 <= j < circle.len() ==> sq_euclid_dist(#[trigger] circle[j], ppos)
                <= sq_euclid_dist(p, ppos),
        forall|j: int|
            0 <= j < k ==> sq_euclid_dist(#[trigger] circle[j], ppos) < sq_euclid_dist(p, ppos),
    ensures
        furthest_ring_point(m, center, d, ppos, p),
{
    assert forall|q: Position|
        m.pos_in_bounds(q) && chebyshev_dist(q, center) == d implies #[trigger] sq_euclid_dist(
        q,
        ppos,
    ) <= sq_euclid_dist(p, ppos) by {
        assert(circle.contains(q));
        let kq = choose|kq: int| 0 <= kq < circle.len() && circle[kq] == q;
        assert(sq_euclid_dist(circle[kq], ppos) <= sq_euclid_dist(p, ppos));
    }
    assert forall|q: Position|
        m.pos_in_bounds(q) && chebyshev_dist(q, center) == d && #[trigger] sq_euclid_dist(q, ppos)
            == sq_euclid_dist(p, ppos) implies !crate::components::pos_lex_lt(q, p) by {
        if crate::components::pos_lex_lt(q, p) {
            assert(circle.contains(q));
            let kq = choose|kq: int| 0 <= kq < circle.len() && circle[kq] == q;
            if kq < k {
                assert(sq_euclid_dist(circle[kq], ppos) < sq_euclid_dist(p, ppos));
            } else if kq == k {
                assert(q == p);
            } else {
                assert(crate::components::pos_lex_lt(circle[k], circle[kq]));
            }
        }
    }
}

/// Ally `j` (another monster) is inside monster `i`'s viewshed.
pub open spec fn ally_visible(ms: Seq<Monster>, i: int, j: int) -> bool {
    ms[i].viewshed.visible_tiles@.contains(ms[j].pos)
}

/// The seed an ally contributes at `i`, considering the first `n` actors:
/// some visible ally among them whose ring's furthest-from-player point has
/// row-major index `i`.
pub open spec fn ally_ring_seed_upto(
    m: GameMap,
    ms: Seq<Monster>,
    entity: int,
    ppos: Position,
    d: int,
    n: int,
    i: int,
) -> bool {
    exists|j: int|
        0 <= j < n && j != entity && #[trigger] ally_visible(ms, entity, j) && (exists|p: Position|
            #![auto]
            furthest_ring_point(m, ms[j].pos, d, ppos, p) && m.spec_pos_idx(p) == i)
}

/// The full stand-off seed set of the support variant: for every visible
/// ally, the single point of its ring furthest from the player.
pub open spec fn ally_ring_seed(
    m: GameMap,
    ms: Seq<Monster>,
    entity: int,
    ppos: Position,
    d: int,
    i: int,
) -> bool {
    ally_ring_seed_upto(m, ms, entity, ppos, d, ms.len() as int, i)
}

pub open spec fn ally_seedp(
    m: GameMap,
    ms: Seq<Monster>,
    entity: int,
    ppos: Position,
    d: int,
) -> spec_fn(int) -> bool {
    |i: int| ally_ring_seed(m, ms, entity, ppos, d, i)
}

/// Ally `j` is visible to monster `i` and below half of its maximum health.
pub open spec fn ally_needs_heal(ms: Seq<Monster>, i: int, j: int) -> bool {
    ally_visible(ms, i, j) && ms[j].stats.hp < ms[j].stats.max_hp / 2
}

/// `t` is the position of the first (lowest-index) visible ally of `i` that
/// is below half health.
pub open spec fn heal_target_pinned(ms: Seq<Monster>, i: int, t: Position) -> bool {
    exists|j: int|
        0 <= j < ms.len() && j != i && #[trigger] ally_needs_heal(ms, i, j) && (forall|jj: int|
            0 <= jj < j && jj != i ==> !ally_needs_heal(ms, i, jj)) && t == ms[j].pos
}

/// The cleric's healing branch fires: a charge is ready and some visible
/// ally is below half health.
pub open spec fn cleric_heal_branch(ms: Seq<Monster>, i: int) -> bool {
    spell_ready(ms[i].spells@) && exists|j: int|
        0 <= j < ms.len() && j != i && #[trigger] ally_needs_heal(ms, i, j)
}

/// Some other monster is inside monster `i`'s viewshed.
pub open spec fn cleric_any_ally_visible(ms: Seq<Monster>, i: int) -> bool {
    exists|j: int| 0 <= j < ms.len() && j != i && #[trigger] ally_visible(ms, i, j)
}

/// Monster `i` takes one of the two repositioning branches, the only ones
/// that produce (buffered) movement.
pub open spec fn cleric_moves(ms: Seq<Monster>, i: int, ppos: Position) -> bool {
    &&& !cleric_heal_branch(ms, i)
    &&& !next_to(ms[i].pos, ppos)
    &&& (cleric_any_ally_visible(ms, i) || target_visible(ms[i], ppos))
}

/// The ally-ring stand-off field of the support variant for monster `i`,
/// together with the buffered step it justifies.
pub open spec fn cleric_ally_move_ok(
    map_pre: GameMap,
    ms: Seq<Monster>,
    i: int,
    ppos: Position,
    opos: Position,
    odirty: bool,
    npos: Position,
    ndirty: bool,
) -> bool {
    let co = ms[i].ai->Cleric_0;
    exists|dist: Seq<i32>|
        #![auto]
        cost_field_for(
            map_pre,
            co.routing_options,
            ally_seedp(map_pre, ms, i, ppos, co.distance_to_keep_away_from_monsters as int),
            dist,
        ) && buffered_step_ok(map_pre, co.routing_options, dist, opos, odirty, npos, ndirty)
}

/// The player-ring stand-off field of the support variant for monster `i`,
/// together with the buffered step it justifies.
pub open spec fn cleric_player_move_ok(
    map_pre: GameMap,
    ms: Seq<Monster>,
    i: int,
    ppos: Position,
    opos: Position,
    odirty: bool,
    npos: Position,
    ndirty: bool,
) -> bool {
    let co = ms[i].ai->Cleric_0;
    exists|dist: Seq<i32>|
        #![auto]
        cost_field_for(
            map_pre,
            co.routing_options,
            ring_seedp(map_pre, ppos, co.distance_to_keep_away_from_player as int),
            dist,
        ) && buffered_step_ok(map_pre, co.routing_options, dist, opos, odirty, npos, ndirty)
}

/// The ally-ring field exists and an exit decision was taken on it (the
/// step itself is still buffered).
pub open spec fn cleric_ally_field_ready(
    map_pre: GameMap,
    ms: Seq<Monster>,
    i: int,
    ppos: Position,
    opos: Position,
) -> bool {
    let co = ms[i].ai->Cleric_0;
    exists|dist: Seq<i32>|
        #![auto]
        cost_field_for(
            map_pre,
            co.routing_options,
            ally_seedp(map_pre, ms, i, ppos, co.distance_to_keep_away_from_monsters as int),
            dist,
        ) && (exists|ro: Option<usize>|
            #![auto]
            exit_ok(map_pre, co.routing_options, dist, opos, ro))
}

/// The player-ring field exists and an exit decision was taken on it.
pub open spec fn cleric_player_field_ready(
    map_pre: GameMap,
    ms: Seq<Monster>,
    i: int,
    ppos: Position,
    opos: Position,
) -> bool {
    let co = ms[i].ai->Cleric_0;
    exists|dist: Seq<i32>|
        #![auto]
        cost_field_for(
            map_pre,
            co.routing_options,
            ring_seedp(map_pre, ppos, co.distance_to_keep_away_from_player as int),
            dist,
        ) && (exists|ro: Option<usize>|
            #![auto]
            exit_ok(map_pre, co.routing_options, dist, opos, ro))
}

/// A buffered move waiting in the buffer: its target is the exit chosen on
/// the mover's stand-off field.
pub open spec fn cleric_buffer_pin(
    map_pre: GameMap,
    ms: Seq<Monster>,
    i: int,
    ppos: Position,
    np: Position,
) -> bool {
    let co = ms[i].ai->Cleric_0;
    if cleric_any_ally_visible(ms, i) {
        exists|dist: Seq<i32>|
            #![auto]
            cost_field_for(
                map_pre,
                co.routing_options,
                ally_seedp(map_pre, ms, i, ppos, co.distance_to_keep_away_from_monsters as int),
                dist,
            ) && exit_ok(
                map_pre,
                co.routing_options,
                dist,
                ms[i].pos,
                Some(map_pre.spec_pos_idx(np) as usize),
            )
    } else {
        exists|dist: Seq<i32>|
            #![auto]
            cost_field_for(
                map_pre,
                co.routing_options,
                ring_seedp(map_pre, ppos, co.distance_to_keep_away_from_player as int),
                dist,
            ) && exit_ok(
                map_pre,
                co.routing_options,
                dist,
                ms[i].pos,
                Some(map_pre.spec_pos_idx(np) as usize),
            )
    }
}

/// Pointwise-equal seed sets give the same cost field.
proof fn lemma_cost_field_for_seedp_equiv(
    m: GameMap,
    opts: MovementRoutingOptions,
    sp1: spec_fn(int) -> bool,
    sp2: spec_fn(int) -> bool,
    dist: Seq<i32>,
)
    requires
        cost_field_for(m, opts, sp1, dist),
        forall|i: int| 0 <= i < m.area() ==> #[trigger] sp1(i) == sp2(i),
    ensures
        cost_field_for(m, opts, sp2, dist),
{
    assert forall|i: int| 0 <= i < m.area() && #[trigger] dist[i] == 0 implies sp2(i) by {
        assert(sp1(i));
    }
    assert forall|i: int|
        0 <= i < m.area() && #[trigger] sp2(i) && spec_passable(m, opts, i) implies dist[i]
        == 0 by {
        assert(sp1(i));
    }
}

/// The ally seed set reads only positions and viewsheds, so two actor
/// vectors agreeing on those yield the same seeds.
proof fn lemma_ally_seed_equiv(
    m: GameMap,
    ms1: Seq<Monster>,
    ms2: Seq<Monster>,
    entity: int,
    ppos: Position,
    d: int,
)
    requires
        ms1.len() == ms2.len(),
        0 <= entity < ms1.len(),
        forall|j: int| 0 <= j < ms1.len() ==> (#[trigger] ms1[j]).pos == ms2[j].pos,
        forall|j: int|
            0 <= j < ms1.len() ==> (#[trigger] ms1[j]).viewshed.visible_tiles@
                == ms2[j].viewshed.visible_tiles@,
    ensures
        forall|i: int|
            #[trigger] ally_ring_seed(m, ms1, entity, ppos, d, i) == ally_ring_seed(
                m,
                ms2,
                entity,
                ppos,
                d,
                i,
            ),
{
    assert forall|i: int|
        #[trigger] ally_ring_seed(m, ms1, entity, ppos, d, i) == ally_ring_seed(
        m,
        ms2,
        entity,
        ppos,
        d,
        i,
    ) by {
        if ally_ring_seed(m, ms1, entity, ppos, d, i) {
            let jj = choose|jj: int|
                0 <= jj < ms1.len() && jj != entity && #[trigger] ally_visible(ms1, entity, jj)
                    && (exists|q: Position|
                    #![auto]
                    furthest_ring_point(m, ms1[jj].pos, d, ppos, q) && m.spec_pos_idx(q) == i);
            let q = choose|q: Position|
                #![auto]
                furthest_ring_point(m, ms1[jj].pos, d, ppos, q) && m.spec_pos_idx(q) == i;
            assert(ms1[entity].viewshed.visible_tiles@ == ms2[entity].viewshed.visible_tiles@);
            assert(ms1[jj].pos == ms2[jj].pos);
            assert(ally_visible(ms2, entity, jj));
            assert(furthest_ring_point(m, ms2[jj].pos, d, ppos, q) && m.spec_pos_idx(q) == i);
        }
        if ally_ring_seed(m, ms2, entity, ppos, d, i) {
            let jj = choose|jj: int|
                0 <= jj < ms2.len() && jj != entity && #[trigger] ally_visible(ms2, entity, jj)
                    && (exists|q: Position|
                    #![auto]
                    furthest_ring_point(m, ms2[jj].pos, d, ppos, q) && m.spec_pos_idx(q) == i);
            let q = choose|q: Position|
                #![auto]
                furthest_ring_point(m, ms2[jj].pos, d, ppos, q) && m.spec_pos_idx(q) == i;
            assert(ms1[entity].viewshed.visible_tiles@ == ms2[entity].viewshed.visible_tiles@);
            assert(ms1[jj].pos == ms2[jj].pos);
            assert(ally_visible(ms1, entity, jj));
            assert(furthest_ring_point(m, ms1[jj].pos, d, ppos, q) && m.spec_pos_idx(q) == i);
        }
    }
}

/// The helper's stand-off bundle, computed against the live actor vector,
/// transfers to the pass-start snapshot (positions and viewsheds agree).
proof fn lemma_cleric_ally_transfer(
    map0: GameMap,
    cur: Seq<Monster>,
    ms0: Seq<Monster>,
    i: int,
    ppos: Position,
    gdm: int,
    opts: MovementRoutingOptions,
    mpos: Position,
    target_idx: Option<usize>,
)
    requires
        cur.len() == ms0.len(),
        0 <= i < cur.len(),
        forall|j: int| 0 <= j < cur.len() ==> (#[trigger] cur[j]).pos == ms0[j].pos,
        forall|j: int|
            0 <= j < cur.len() ==> (#[trigger] cur[j]).viewshed.visible_tiles@
                == ms0[j].viewshed.visible_tiles@,
        exists|dist: Seq<i32>|
            #![auto]
            cost_field_for(map0, opts, ally_seedp(map0, cur, i, ppos, gdm), dist) && exit_ok(
                map0,
                opts,
                dist,
                mpos,
                target_idx,
            ),
    ensures
        exists|dist: Seq<i32>|
            #![auto]
            cost_field_for(map0, opts, ally_seedp(map0, ms0, i, ppos, gdm), dist) && exit_ok(
                map0,
                opts,
                dist,
                mpos,
                target_idx,
            ),
{
    let sp_cur = ally_seedp(map0, cur, i, ppos, gdm);
    let sp_ms0 = ally_seedp(map0, ms0, i, ppos, gdm);
    let dcur = choose|dist: Seq<i32>|
        #![auto]
        cost_field_for(map0, opts, sp_cur, dist) && exit_ok(map0, opts, dist, mpos, target_idx);
    lemma_ally_seed_equiv(map0, cur, ms0, i, ppos, gdm);
    assert forall|ii: int| 0 <= ii < map0.area() implies #[trigger] sp_cur(ii) == sp_ms0(ii) by {
        assert(ally_ring_seed(map0, cur, i, ppos, gdm, ii) == ally_ring_seed(
            map0,
            ms0,
            i,
            ppos,
            gdm,
            ii,
        ));
    }
    lemma_cost_field_for_seedp_equiv(map0, opts, sp_cur, sp_ms0, dcur);
}

/// Applying (or dropping) a buffered move yields the stand-off movement
/// relation the decision pinned.
proof fn lemma_buffered_outcome(
    map0: GameMap,
    ms0: Seq<Monster>,
    e: int,
    ppos: Position,
    np: Position,
    npos: Position,
    ndirty: bool,
)
    requires
        0 <= e < ms0.len(),
        ms0[e].ai is Cleric,
        map0.wf(),
        map0.pos_in_bounds(np),
        cleric_buffer_pin(map0, ms0, e, ppos, np),
        (npos == np && ndirty) || (npos == ms0[e].pos && ndirty == ms0[e].viewshed.dirty),
    ensures
        cleric_any_ally_visible(ms0, e) ==> cleric_ally_move_ok(
            map0,
            ms0,
            e,
            ppos,
            ms0[e].pos,
            ms0[e].viewshed.dirty,
            npos,
            ndirty,
        ),
        !cleric_any_ally_visible(ms0, e) ==> cleric_player_move_ok(
            map0,
            ms0,
            e,
            ppos,
            ms0[e].pos,
            ms0[e].viewshed.dirty,
            npos,
            ndirty,
        ),
{
    let o = ms0[e];
    let co = o.ai->Cleric_0;
    map0.lemma_idx_bounds(np.x as int, np.y as int);
    if cleric_any_ally_visible(ms0, e) {
        let gdm = co.distance_to_keep_away_from_monsters as int;
        let dpin = choose|dist: Seq<i32>|
            #![auto]
            cost_field_for(map0, co.routing_options, ally_seedp(map0, ms0, e, ppos, gdm), dist)
                && exit_ok(
                map0,
                co.routing_options,
                dist,
                o.pos,
                Some(map0.spec_pos_idx(np) as usize),
            );
        assert(buffered_step_ok(
            map0,
            co.routing_options,
            dpin,
            o.pos,
            o.viewshed.dirty,
            npos,
            ndirty,
        ));
    } else {
        let gdp = co.distance_to_keep_away_from_player as int;
        let dpin = choose|dist: Seq<i32>|
            #![auto]
            cost_field_for(map0, co.routing_options, ring_seedp(map0, ppos, gdp), dist)
                && exit_ok(
                map0,
                co.routing_options,
                dist,
                o.pos,
                Some(map0.spec_pos_idx(np) as usize),
            );
        assert(buffered_step_ok(
            map0,
            co.routing_options,
            dpin,
            o.pos,
            o.viewshed.dirty,
            npos,
            ndirty,
        ));
    }
}

/// A monster whose buffered decision never produced a move (or whose move
/// was dropped) still satisfies the stand-off movement relation by staying
/// in place.
proof fn lemma_field_ready_stay(
    map0: GameMap,
    ms0: Seq<Monster>,
    i: int,
    ppos: Position,
    npos: Position,
    ndirty: bool,
)
    requires
        0 <= i < ms0.len(),
        ms0[i].ai is Cleric,
        npos == ms0[i].pos,
        ndirty == ms0[i].viewshed.dirty,
        cleric_any_ally_visible(ms0, i) ==> cleric_ally_field_ready(
            map0,
            ms0,
            i,
            ppos,
            ms0[i].pos,
        ),
        !cleric_any_ally_visible(ms0, i) ==> cleric_player_field_ready(
            map0,
            ms0,
            i,
            ppos,
            ms0[i].pos,
        ),
    ensures
        cleric_any_ally_visible(ms0, i) ==> cleric_ally_move_ok(
            map0,
            ms0,
            i,
            ppos,
            ms0[i].pos,
            ms0[i].viewshed.dirty,
            npos,
            ndirty,
        ),
        !cleric_any_ally_visible(ms0, i) ==> cleric_player_move_ok(
            map0,
            ms0,
            i,
            ppos,
            ms0[i].pos,
            ms0[i].viewshed.dirty,
            npos,
            ndirty,
        ),
{
    let o = ms0[i];
    let co = o.ai->Cleric_0;
    if cleric_any_ally_visible(ms0, i) {
        let gdm = co.distance_to_keep_away_from_monsters as int;
        let dready = choose|dist: Seq<i32>|
            #![auto]
            cost_field_for(map0, co.routing_options, ally_seedp(map0, ms0, i, ppos, gdm), dist)
                && (exists|ro: Option<usize>|
                #![auto]
                exit_ok(map0, co.routing_options, dist, o.pos, ro));
        let ro = choose|ro: Option<usize>|
            #![auto]
            exit_ok(map0, co.routing_options, dready, o.pos, ro);
        assert(buffered_step_ok(
            map0,
            co.routing_options,
            dready,
            o.pos,
            o.viewshed.dirty,
            npos,
            ndirty,
        ));
    } else {
        let gdp = co.distance_to_keep_away_from_player as int;
        let dready = choose|dist: Seq<i32>|
            #![auto]
            cost_field_for(map0, co.routing_options, ring_seedp(map0, ppos, gdp), dist) && (
            exists|ro: Option<usize>|
                #![auto]
                exit_ok(map0, co.routing_options, dist, o.pos, ro));
        let ro = choose|ro: Option<usize>|
            #![auto]
            exit_ok(map0, co.routing_options, dready, o.pos, ro);
        assert(buffered_step_ok(
            map0,
            co.routing_options,
            dready,
            o.pos,
            o.viewshed.dirty,
            npos,
            ndirty,
        ));
    }
}

/// One support-spellcaster decision against the snapshot `ms` of all actors.
/// Branch priority: heal the first visible under-half ally when a charge is
/// ready; else melee when adjacent to the player; else reposition around
/// visible allies; else reposition around the visible player; else no-op.
/// The turn is consumed in every branch, and only the two repositioning
/// branches may move the monster (by one buffered king-move step).
pub open spec fn cleric_decided(
    ms: Seq<Monster>,
    i: int,
    map_pre: GameMap,
    m: Monster,
    ppos: Position,
    player: usize,
) -> bool {
    let o = ms[i];
    &&& !m.can_act
    &&& ai_frame_unchanged(o, m)
    &&& m.ai == o.ai
    &&& map_pre.pos_in_bounds(m.pos)
    &&& if cleric_heal_branch(ms, i) {
        &&& (m.wants_targeted matches Some(w) && w.thing < o.spells@.len() && o.spells@[w.thing as int].charges
            > 0 && (forall|k: int| 0 <= k < w.thing ==> (#[trigger] o.spells@[k]).charges <= 0)
            && heal_target_pinned(ms, i, w.target))
        &&& m.wants_melee == o.wants_melee
        &&& m.pos == o.pos
        &&& m.viewshed.dirty == o.viewshed.dirty
    } else if next_to(o.pos, ppos) {
        &&& m.wants_melee == Some(WantsToMeleeAttack { target: player })
        &&& m.wants_targeted == o.wants_targeted
        &&& m.pos == o.pos
        &&& m.viewshed.dirty == o.viewshed.dirty
    } else if cleric_any_ally_visible(ms, i) {
        &&& m.wants_melee == o.wants_melee
        &&& m.wants_targeted == o.wants_targeted
        &&& ((m.pos == o.pos && m.viewshed.dirty == o.viewshed.dirty) || (chebyshev_dist(
            o.pos,
            m.pos,
        ) == 1 && m.viewshed.dirty))
        &&& cleric_ally_move_ok(
            map_pre,
            ms,
            i,
            ppos,
            o.pos,
            o.viewshed.dirty,
            m.pos,
            m.viewshed.dirty,
        )
    } else if target_visible(o, ppos) {
        &&& m.wants_melee == o.wants_melee
        &&& m.wants_targeted == o.wants_targeted
        &&& ((m.pos == o.pos && m.viewshed.dirty == o.viewshed.dirty) || (chebyshev_dist(
            o.pos,
            m.pos,
        ) == 1 && m.viewshed.dirty))
        &&& cleric_player_move_ok(
            map_pre,
            ms,
            i,
            ppos,
            o.pos,
            o.viewshed.dirty,
            m.pos,
            m.viewshed.dirty,
        )
    } else {
        &&& m.wants_melee == o.wants_melee
        &&& m.wants_targeted == o.wants_targeted
        &&& m.pos == o.pos
        &&& m.viewshed.dirty == o.viewshed.dirty
    }
}

/// The decision phase alone: as `cleric_decided`, but movement is still
/// buffered, so the position is untouched in every branch.
pub open spec fn cleric_phase1(
    ms: Seq<Monster>,
    i: int,
    map_pre: GameMap,
    m: Monster,
    ppos: Position,
    player: usize,
) -> bool {
    let o = ms[i];
    &&& !m.can_act
    &&& ai_frame_unchanged(o, m)
    &&& m.ai == o.ai
    &&& m.pos == o.pos
    &&& m.viewshed.dirty == o.viewshed.dirty
    &&& if cleric_heal_branch(ms, i) {
        &&& (m.wants_targeted matches Some(w) && w.thing < o.spells@.len() && o.spells@[w.thing as int].charges
            > 0 && (forall|k: int| 0 <= k < w.thing ==> (#[trigger] o.spells@[k]).charges <= 0)
            && heal_target_pinned(ms, i, w.target))
        &&& m.wants_melee == o.wants_melee
    } else if next_to(o.pos, ppos) {
        &&& m.wants_melee == Some(WantsToMeleeAttack { target: player })
        &&& m.wants_targeted == o.wants_targeted
    } else if cleric_any_ally_visible(ms, i) {
        &&& m.wants_melee == o.wants_melee
        &&& m.wants_targeted == o.wants_targeted
        &&& cleric_ally_field_ready(map_pre, ms, i, ppos, o.pos)
    } else if target_visible(o, ppos) {
        &&& m.wants_melee == o.wants_melee
        &&& m.wants_targeted == o.wants_targeted
        &&& cleric_player_field_ready(map_pre, ms, i, ppos, o.pos)
    } else {
        &&& m.wants_melee == o.wants_melee
        &&& m.wants_targeted == o.wants_targeted
    }
}

/// First (lowest-index) other monster visible to `i` and below half health.
#[verifier::loop_isolation(false)]
fn first_visible_ally_below_half(monsters: &Vec<Monster>, i: usize) -> (r: Option<usize>)
    requires
        i < monsters@.len(),
        forall|j: int| 0 <= j < monsters@.len() ==> (#[trigger] monsters@[j]).stats.max_hp >= 0,
    ensures
        r matches Some(j) ==> j < monsters@.len() && j != i && ally_needs_heal(
            monsters@,
            i as int,
            j as int,
        ) && (forall|jj: int| 0 <= jj < j && jj != i ==> !ally_needs_heal(monsters@, i as int, jj)),
        r is None ==> forall|j: int|
            0 <= j < monsters@.len() && j != i ==> !ally_needs_heal(monsters@, i as int, j),
{
    let mut j: usize = 0;
    while j < monsters.len()
        invariant
            0 <= j <= monsters@.len(),
            forall|jj: int| 0 <= jj < j && jj != i ==> !ally_needs_heal(monsters@, i as int, jj),
        decreases monsters@.len() - j,
    {
        if j != i {
            let jpos = monsters[j].pos;
            if monsters[i].viewshed.contains(jpos) {
                if monsters[j].stats.hp < monsters[j].stats.max_hp / 2 {
                    return Some(j);
                }
            }
        }
        j += 1;
    }
    None
}

/// Whether any other monster is inside monster `i`'s viewshed.
#[verifier::loop_isolation(false)]
fn any_visible_ally(monsters: &Vec<Monster>, i: usize) -> (r: bool)
    requires
        i < monsters@.len(),
    ensures
        r == cleric_any_ally_visible(monsters@, i as int),
{
    let mut j: usize = 0;
    while j < monsters.len()
        invariant
            0 <= j <= monsters@.len(),
            forall|jj: int| 0 <= jj < j && jj != i ==> !ally_visible(monsters@, i as int, jj),
        decreases monsters@.len() - j,
    {
        if j != i {
            let jpos = monsters[j].pos;
            if monsters[i].viewshed.contains(jpos) {
                proof {
                    assert(ally_visible(monsters@, i as int, j as int));
                }
                return true;
            }
        }
        j += 1;
    }
    false
}

/// Picks the next step toward stand-off positions around the other visible
/// monsters: each visible ally's ring is reduced to its single point
/// furthest from the player, those points seed a cost field, and the
/// monster follows the steepest descent.
#[verifier::loop_isolation(false)]
pub fn get_position_at_range_from_other_monsters(
    map: &GameMap,
    entity: usize,
    ppos: Position,
    pos: Position,
    monsters: &Vec<Monster>,
    routing_options: &MovementRoutingOptions,
    distance_to_keep_away: i32,
) -> (r: Option<usize>)
    requires
        map.wf(),
        map.pos_in_bounds(ppos),
        map.pos_in_bounds(pos),
        entity < monsters@.len(),
        forall|j: int|
            0 <= j < monsters@.len() ==> map.pos_in_bounds((#[trigger] monsters@[j]).pos),
        0 <= distance_to_keep_away <= 100000,
    ensures
        r matches Some(j) ==> j < map.area() && spec_passable(*map, *routing_options, j as int)
            && is_neighbor_idx(*map, pos, j as int),
        exists|dist: Seq<i32>|
            #![auto]
            cost_field_for(
                *map,
                *routing_options,
                ally_seedp(*map, monsters@, entity as int, ppos, distance_to_keep_away as int),
                dist,
            ) && exit_ok(*map, *routing_options, dist, pos, r),
{
    let ghost d = distance_to_keep_away as int;
    let mut seeds: Vec<usize> = Vec::new();
    let mut j: usize = 0;
    while j < monsters.len()
        invariant
            0 <= j <= monsters@.len(),
            forall|i: int|
                0 <= i < map.area() ==> ((#[trigger] crate::routing::is_seed(seeds@, i))
                    <==> ally_ring_seed_upto(
                    *map,
                    monsters@,
                    entity as int,
                    ppos,
                    d,
                    j as int,
                    i,
                )),
            forall|kk: int| 0 <= kk < seeds@.len() ==> (#[trigger] seeds@[kk]) < map.area(),
        decreases monsters@.len() - j,
    {
        let ghost seeds0 = seeds@;
        if j != entity {
            let jpos = monsters[j].pos;
            if monsters[entity].viewshed.contains(jpos) {
                proof {
                    assert(ally_visible(monsters@, entity as int, j as int));
                }
                let circle = map.get_l_infinity_circle_around(jpos, distance_to_keep_away);
                proof {
                    assert forall|k: int| 0 <= k < circle@.len() implies coord_bounded(
                        #[trigger] circle@[k],
                    ) by {
                        assert(map.pos_in_bounds(circle@[k]));
                    }
                }
                let fp = furthest_point_from(&circle, ppos);
                if let Some(p) = fp {
                    proof {
                        let k = choose|k: int|
                            0 <= k < circle@.len() && #[trigger] circle@[k] == p && (forall|
                                jx: int,
                            |
                                0 <= jx < circle@.len() ==> sq_euclid_dist(
                                    #[trigger] circle@[jx],
                                    ppos,
                                ) <= sq_euclid_dist(p, ppos)) && (forall|jx: int|
                                0 <= jx < k ==> sq_euclid_dist(#[trigger] circle@[jx], ppos)
                                    < sq_euclid_dist(p, ppos));
                        lemma_first_argmax_is_furthest(*map, jpos, d, ppos, circle@, p, k);
                        assert(map.pos_in_bounds(p));
                    }
                    seeds.push(map.pos_idx(p));
                    proof {
                        assert forall|i: int|
                            0 <= i < map.area() implies ((#[trigger] crate::routing::is_seed(
                            seeds@,
                            i,
                        )) <==> ally_ring_seed_upto(
                            *map,
                            monsters@,
                            entity as int,
                            ppos,
                            d,
                            j + 1,
                            i,
                        )) by {
                            if crate::routing::is_seed(seeds@, i) {
                                let kk = choose|kk: int|
                                    0 <= kk < seeds@.len() && (#[trigger] seeds@[kk]) == i;
                                if kk < seeds0.len() {
                                    assert(seeds0[kk] == i);
                                    assert(crate::routing::is_seed(seeds0, i));
                                    assert(ally_ring_seed_upto(
                                        *map,
                                        monsters@,
                                        entity as int,
                                        ppos,
                                        d,
                                        j as int,
                                        i,
                                    ));
                                    let jj0 = choose|jj0: int|
                                        0 <= jj0 < j && jj0 != entity && #[trigger] ally_visible(
                                            monsters@,
                                            entity as int,
                                            jj0,
                                        ) && (exists|q: Position|
                                            #![auto]
                                            furthest_ring_point(
                                                *map,
                                                monsters@[jj0].pos,
                                                d,
                                                ppos,
                                                q,
                                            ) && map.spec_pos_idx(q) == i);
                                    assert(0 <= jj0 < j + 1);
                                } else {
                                    assert(i == map.spec_pos_idx(p));
                                    assert(furthest_ring_point(
                                        *map,
                                        monsters@[j as int].pos,
                                        d,
                                        ppos,
                                        p,
                                    ) && map.spec_pos_idx(p) == i);
                                }
                                assert(ally_ring_seed_upto(
                                    *map,
                                    monsters@,
                                    entity as int,
                                    ppos,
                                    d,
                                    j + 1,
                                    i,
                                ));
                            }
                            if ally_ring_seed_upto(*map, monsters@, entity as int, ppos, d, j + 1, i) {
                                let jj = choose|jj: int|
                                    0 <= jj < j + 1 && jj != entity && #[trigger] ally_visible(
                                        monsters@,
                                        entity as int,
                                        jj,
                                    ) && (exists|q: Position|
                                        #![auto]
                                        furthest_ring_point(*map, monsters@[jj].pos, d, ppos, q)
                                            && map.spec_pos_idx(q) == i);
                                if jj < j {
                                    assert(ally_ring_seed_upto(
                                        *map,
                                        monsters@,
                                        entity as int,
                                        ppos,
                                        d,
                                        j as int,
                                        i,
                                    ));
                                    assert(crate::routing::is_seed(seeds0, i));
                                    let kk = choose|kk: int|
                                        0 <= kk < seeds0.len() && (#[trigger] seeds0[kk]) == i;
                                    assert(seeds@[kk] == seeds0[kk]);
                                    assert(seeds@[kk] == i);
                                    assert(crate::routing::is_seed(seeds@, i));
                                } else {
                                    let q = choose|q: Position|
                                        #![auto]
                                        furthest_ring_point(*map, monsters@[jj].pos, d, ppos, q)
                                            && map.spec_pos_idx(q) == i;
                                    lemma_furthest_ring_point_unique(
                                        *map,
                                        jpos,
                                        d,
                                        ppos,
                                        q,
                                        p,
                                    );
                                    assert(seeds@[seeds@.len() - 1] == i);
                                    assert(crate::routing::is_seed(seeds@, i));
                                }
                            }
                        }
                    }
                } else {
                    proof {
                        assert forall|i: int|
                            0 <= i < map.area() implies ((#[trigger] crate::routing::is_seed(
                            seeds@,
                            i,
                        )) <==> ally_ring_seed_upto(
                            *map,
                            monsters@,
                            entity as int,
                            ppos,
                            d,
                            j + 1,
                            i,
                        )) by {
                            if ally_ring_seed_upto(*map, monsters@, entity as int, ppos, d, j + 1, i) {
                                let jj = choose|jj: int|
                                    0 <= jj < j + 1 && jj != entity && #[trigger] ally_visible(
                                        monsters@,
                                        entity as int,
                                        jj,
                                    ) && (exists|q: Position|
                                        #![auto]
                                        furthest_ring_point(*map, monsters@[jj].pos, d, ppos, q)
                                            && map.spec_pos_idx(q) == i);
                                if jj == j {
                                    let q = choose|q: Position|
                                        #![auto]
                                        furthest_ring_point(*map, monsters@[jj].pos, d, ppos, q)
                                            && map.spec_pos_idx(q) == i;
                                    assert(circle@.contains(q));
                                }
                            }
                        }
                    }
                }
            } else {
                proof {
                    assert(!ally_visible(monsters@, entity as int, j as int));
                    assert forall|i: int|
                        0 <= i < map.area() implies ((#[trigger] crate::routing::is_seed(
                        seeds@,
                        i,
                    )) <==> ally_ring_seed_upto(
                        *map,
                        monsters@,
                        entity as int,
                        ppos,
                        d,
                        j + 1,
                        i,
                    )) by {}
                }
            }
        } else {
            proof {
                assert forall|i: int|
                    0 <= i < map.area() implies ((#[trigger] crate::routing::is_seed(seeds@, i))
                    <==> ally_ring_seed_upto(
                    *map,
                    monsters@,
                    entity as int,
                    ppos,
                    d,
                    j + 1,
                    i,
                )) by {}
            }
        }
        j += 1;
    }
    let dist = cost_field(map, routing_options, &seeds);
    let r = find_lowest_exit(map, routing_options, &dist, pos);
    proof {
        let seedp = ally_seedp(*map, monsters@, entity as int, ppos, d);
        assert forall|i: int| 0 <= i < map.area() implies (#[trigger] seedp(i) == ally_ring_seed(
            *map,
            monsters@,
            entity as int,
            ppos,
            d,
            i,
        )) by {}
        assert forall|i: int|
            0 <= i < map.area() && #[trigger] seedp(i) && spec_passable(
                *map,
                *routing_options,
                i,
            ) implies dist@[i] == 0 by {
            assert(crate::routing::is_seed(seeds@, i));
            let kk = choose|kk: int| 0 <= kk < seeds@.len() && (#[trigger] seeds@[kk]) == i;
            assert(seeds@[kk] < map.area() && spec_passable(
                *map,
                *routing_options,
                seeds@[kk] as int,
            ));
        }
        assert(cost_field_for(*map, *routing_options, seedp, dist@));
    }
    r
}

pub struct MonsterClericAISystem {}

impl MonsterClericAISystem {
    /// Runs one decision for every eligible support spellcaster.  Decisions
    /// are made against one consistent snapshot of all positions: movement
    /// is buffered during the decision pass and applied only after every
    /// cleric has decided.
    #[verifier::loop_isolation(false)]
    #[verifier::rlimit(100)]
    pub fn run(
        &mut self,
        map: &mut GameMap,
        ppos: Position,
        player: usize,
        monsters: &mut Vec<Monster>,
    )
        requires
            old(map).wf(),
            old(map).pos_in_bounds(ppos),
            forall|i: int|
                0 <= i < old(monsters)@.len() ==> old(map).pos_in_bounds(
                    (#[trigger] old(monsters)@[i]).pos,
                ),
            forall|i: int|
                0 <= i < old(monsters)@.len() ==> (#[trigger] old(monsters)@[i]).stats.max_hp >= 0,
            forall|i: int|
                0 <= i < old(monsters)@.len() ==> ((#[trigger] old(monsters)@[i]).ai matches
                    MonsterAI::Cleric(c) ==> 0 <= c.distance_to_keep_away_from_player <= 100000
                    && 0 <= c.distance_to_keep_away_from_monsters <= 100000),
        ensures
            final(map).wf(),
            *final(map) == (GameMap { blocked: final(map).blocked, ..*old(map) }),
            final(map).blocked@.len() == old(map).blocked@.len(),
            final(monsters)@.len() == old(monsters)@.len(),
            forall|i: int|
                0 <= i < old(monsters)@.len() ==> {
                    let o = old(monsters)@[i];
                    let m = #[trigger] final(monsters)@[i];
                    if o.can_act && o.ai is Cleric {
                        cleric_decided(old(monsters)@, i, *old(map), m, ppos, player)
                    } else {
                        m == o
                    }
                },
    {
        let ghost map0 = *map;
        let ghost ms0 = monsters@;
        let mut movement_buffer: Vec<(usize, Position)> = Vec::new();
        // Decision pass: intents now, movement buffered.
        let mut i: usize = 0;
        while i < monsters.len()
            invariant
                *map == map0,
                0 <= i <= ms0.len(),
                monsters@.len() == ms0.len(),
                forall|j: int| i <= j < ms0.len() ==> monsters@[j] == ms0[j],
                forall|j: int|
                    0 <= j < i ==> {
                        let o = ms0[j];
                        let m = #[trigger] monsters@[j];
                        if o.can_act && o.ai is Cleric {
                            cleric_phase1(ms0, j, map0, m, ppos, player)
                        } else {
                            m == o
                        }
                    },
                forall|j: int|
                    0 <= j < ms0.len() ==> {
                        let o = ms0[j];
                        let m = #[trigger] monsters@[j];
                        m.pos == o.pos && m.viewshed.visible_tiles@ == o.viewshed.visible_tiles@
                            && m.stats == o.stats && m.spells@ == o.spells@
                    },
                forall|k: int|
                    0 <= k < movement_buffer@.len() ==> {
                        let e = (#[trigger] movement_buffer@[k]).0;
                        let np = movement_buffer@[k].1;
                        &&& e < ms0.len()
                        &&& (e as int) < i
                        &&& ms0[e as int].can_act
                        &&& ms0[e as int].ai is Cleric
                        &&& cleric_moves(ms0, e as int, ppos)
                        &&& map0.pos_in_bounds(np)
                        &&& chebyshev_dist(ms0[e as int].pos, np) == 1
                        &&& cleric_buffer_pin(map0, ms0, e as int, ppos, np)
                    },
                forall|k1: int, k2: int|
                    0 <= k1 < k2 < movement_buffer@.len() ==> (#[trigger] movement_buffer@[k1]).0
                        < (#[trigger] movement_buffer@[k2]).0,
            decreases ms0.len() - i,
        {
            let can = monsters[i].can_act;
            let is_cleric = match &monsters[i].ai {
                MonsterAI::Cleric(_) => true,
                _ => false,
            };
            if can && is_cleric {
                let ai = match &monsters[i].ai {
                    MonsterAI::Cleric(c) => *c,
                    _ => MonsterClericAI {
                        distance_to_keep_away_from_player: 0,
                        distance_to_keep_away_from_monsters: 0,
                        routing_options: MovementRoutingOptions {
                            avoid_blocked: false,
                            avoid_fire: false,
                            avoid_chill: false,
                        },
                    },
                };
                let mpos = monsters[i].pos;
                let in_viewshed = monsters[i].viewshed.contains(ppos);
                let next_to_player = is_next_to(mpos, ppos);
                let spell_to_cast = first_charged_spell(&monsters[i].spells);
                let heal_target = first_visible_ally_below_half(monsters, i);
                let any_ally = any_visible_ally(monsters, i);
                let heal_tpos: Option<Position> = match heal_target {
                    Some(t) => Some(monsters[t].pos),
                    None => None,
                };
                proof {
                    assert forall|j: int| 0 <= j < ms0.len() && j != i implies (ally_needs_heal(
                        monsters@,
                        i as int,
                        j,
                    ) == ally_needs_heal(ms0, i as int, j) && ally_visible(monsters@, i as int, j)
                        == ally_visible(ms0, i as int, j)) by {
                        assert(monsters@[j].pos == ms0[j].pos);
                        assert(monsters@[i as int].viewshed.visible_tiles@ == ms0[i as int].viewshed.visible_tiles@);
                    }
                }
                let ghost cur = monsters@;
                let heals = spell_to_cast.is_some() && heal_tpos.is_some();
                if !heals && !next_to_player && (any_ally || in_viewshed) {
                    proof {
                        assert(!cleric_heal_branch(ms0, i as int)) by {
                            if cleric_heal_branch(ms0, i as int) {
                                assert(spell_ready(cur[i as int].spells@));
                                let j = choose|j: int|
                                    0 <= j < ms0.len() && j != i && #[trigger] ally_needs_heal(
                                        ms0,
                                        i as int,
                                        j,
                                    );
                                assert(ally_needs_heal(cur, i as int, j));
                            }
                        }
                        if any_ally {
                            assert(cleric_any_ally_visible(ms0, i as int)) by {
                                let j = choose|j: int|
                                    0 <= j < cur.len() && j != i && #[trigger] ally_visible(
                                        cur,
                                        i as int,
                                        j,
                                    );
                                assert(ally_visible(ms0, i as int, j));
                            }
                        }
                        assert(cleric_moves(ms0, i as int, ppos));
                    }
                    proof {
                        assert(cur[i as int] == ms0[i as int]);
                    }
                    let target_idx = if any_ally {
                        get_position_at_range_from_other_monsters(
                            map,
                            i,
                            ppos,
                            mpos,
                            monsters,
                            &ai.routing_options,
                            ai.distance_to_keep_away_from_monsters,
                        )
                    } else {
                        get_position_at_range_from_player(
                            map,
                            &ai.routing_options,
                            ppos,
                            mpos,
                            ai.distance_to_keep_away_from_player,
                        )
                    };
                    proof {
                        if any_ally {
                            let gdm = ai.distance_to_keep_away_from_monsters as int;
                            lemma_cleric_ally_transfer(
                                map0,
                                cur,
                                ms0,
                                i as int,
                                ppos,
                                gdm,
                                ai.routing_options,
                                mpos,
                                target_idx,
                            );
                            assert(cleric_ally_field_ready(map0, ms0, i as int, ppos, mpos));
                        } else {
                            assert(!cleric_any_ally_visible(ms0, i as int)) by {
                                if cleric_any_ally_visible(ms0, i as int) {
                                    let jv = choose|jv: int|
                                        0 <= jv < ms0.len() && jv != i && #[trigger] ally_visible(
                                            ms0,
                                            i as int,
                                            jv,
                                        );
                                    assert(ally_visible(cur, i as int, jv));
                                }
                            }
                            assert(target_visible(ms0[i as int], ppos));
                            assert(cleric_player_field_ready(map0, ms0, i as int, ppos, mpos));
                        }
                    }
                    if let Some(jdx) = target_idx {
                        let np = map.idx_pos(jdx);
                        proof {
                            lemma_neighbor_idx_adjacent(*map, mpos, np);
                        }
                        movement_buffer.push((i, np));
                        proof {
                            if any_ally {
                                let gdm = ai.distance_to_keep_away_from_monsters as int;
                                lemma_cleric_ally_transfer(
                                    map0,
                                    cur,
                                    ms0,
                                    i as int,
                                    ppos,
                                    gdm,
                                    ai.routing_options,
                                    mpos,
                                    target_idx,
                                );
                                let dms = choose|dist: Seq<i32>|
                                    #![auto]
                                    cost_field_for(
                                        map0,
                                        ai.routing_options,
                                        ally_seedp(map0, ms0, i as int, ppos, gdm),
                                        dist,
                                    ) && exit_ok(
                                        map0,
                                        ai.routing_options,
                                        dist,
                                        mpos,
                                        target_idx,
                                    );
                                assert(exit_ok(
                                    map0,
                                    ai.routing_options,
                                    dms,
                                    ms0[i as int].pos,
                                    Some(map0.spec_pos_idx(np) as usize),
                                ));
                                assert(cleric_buffer_pin(map0, ms0, i as int, ppos, np));
                            } else {
                                let gdp = ai.distance_to_keep_away_from_player as int;
                                let dcur = choose|dist: Seq<i32>|
                                    #![auto]
                                    cost_field_for(
                                        map0,
                                        ai.routing_options,
                                        ring_seedp(map0, ppos, gdp),
                                        dist,
                                    ) && exit_ok(
                                        map0,
                                        ai.routing_options,
                                        dist,
                                        mpos,
                                        target_idx,
                                    );
                                assert(exit_ok(
                                    map0,
                                    ai.routing_options,
                                    dcur,
                                    ms0[i as int].pos,
                                    Some(map0.spec_pos_idx(np) as usize),
                                ));
                                assert(cleric_buffer_pin(map0, ms0, i as int, ppos, np));
                            }
                        }
                    }
                } else {
                    proof {
                        if !heals && !next_to_player {
                            assert(!cleric_any_ally_visible(ms0, i as int)) by {
                                if cleric_any_ally_visible(ms0, i as int) {
                                    let jv = choose|jv: int|
                                        0 <= jv < ms0.len() && jv != i && #[trigger] ally_visible(
                                            ms0,
                                            i as int,
                                            jv,
                                        );
                                    assert(ally_visible(cur, i as int, jv));
                                }
                            }
                            assert(!target_visible(ms0[i as int], ppos));
                        }
                    }
                }
                let mut m = monsters.remove(i);
                proof {
                    assert(m == ms0[i as int]);
                }
                if let (Some(spell), Some(tpos)) = (spell_to_cast, heal_tpos) {
                    m.wants_targeted = Some(WantsToUseTargeted { thing: spell, target: tpos });
                } else if next_to_player {
                    m.wants_melee = Some(WantsToMeleeAttack { target: player });
                }
                m.can_act = false;
                let ghost mfin = m;
                monsters.insert(i, m);
                proof {
                    assert(monsters@ =~= cur.update(i as int, mfin));
                    if heals {
                        let k = spell_to_cast->0;
                        assert(cur[i as int].spells@[k as int].charges > 0);
                        assert(spell_ready(ms0[i as int].spells@));
                        let ht = heal_target->0;
                        assert(ally_needs_heal(cur, i as int, ht as int));
                        assert(ally_needs_heal(ms0, i as int, ht as int));
                        assert(cleric_heal_branch(ms0, i as int));
                        assert forall|jj: int| 0 <= jj < ht && jj != i implies !ally_needs_heal(
                            ms0,
                            i as int,
                            jj,
                        ) by {
                            assert(!ally_needs_heal(cur, i as int, jj));
                        }
                        assert(heal_target_pinned(ms0, i as int, mfin.wants_targeted->0.target));
                    } else {
                        assert(!cleric_heal_branch(ms0, i as int)) by {
                            if cleric_heal_branch(ms0, i as int) {
                                assert(spell_ready(cur[i as int].spells@));
                                let j = choose|j: int|
                                    0 <= j < ms0.len() && j != i && #[trigger] ally_needs_heal(
                                        ms0,
                                        i as int,
                                        j,
                                    );
                                assert(ally_needs_heal(cur, i as int, j));
                                assert(heal_target is Some);
                                assert(spell_to_cast is Some);
                            }
                        }
                    }
                    assert(cleric_phase1(ms0, i as int, map0, mfin, ppos, player));
                }
            }
            i += 1;
        }
        // Movement pass: apply the buffered steps against the snapshot.
        let ghost buf = movement_buffer@;
        let mut b: usize = 0;
        while b < movement_buffer.len()
            invariant
                map.wf(),
                *map == (GameMap { blocked: map.blocked, ..map0 }),
                map.blocked@.len() == map0.blocked@.len(),
                0 <= b <= buf.len(),
                movement_buffer@ == buf,
                monsters@.len() == ms0.len(),
                forall|j: int|
                    0 <= j < ms0.len() ==> {
                        let o = ms0[j];
                        let m = #[trigger] monsters@[j];
                        if o.can_act && o.ai is Cleric {
                            if buffered_before(buf, b as int, j) {
                                cleric_decided(ms0, j, map0, m, ppos, player)
                            } else {
                                cleric_phase1(ms0, j, map0, m, ppos, player)
                            }
                        } else {
                            m == o
                        }
                    },
            decreases buf.len() - b,
        {
            let (e, np) = movement_buffer[b];
            proof {
                assert(buf[b as int].0 == e && buf[b as int].1 == np);
                assert forall|k: int| 0 <= k < b implies (#[trigger] buf[k]).0 != e by {
                    assert(buf[k].0 < buf[b as int].0);
                }
                assert(!buffered_before(buf, b as int, e as int));
                assert(cleric_phase1(ms0, e as int, map0, monsters@[e as int], ppos, player));
            }
            let ghost curb = monsters@;
            let mut m = monsters.remove(e);
            move_monster(map, &mut m.pos, np.x, np.y, &mut m.viewshed);
            let ghost mfin = m;
            monsters.insert(e, m);
            proof {
                assert(monsters@ =~= curb.update(e as int, mfin));
                assert(buffered_before(buf, b + 1, e as int));
                lemma_buffered_outcome(
                    map0,
                    ms0,
                    e as int,
                    ppos,
                    np,
                    mfin.pos,
                    mfin.viewshed.dirty,
                );
                assert(cleric_decided(ms0, e as int, map0, mfin, ppos, player));
                assert forall|j: int|
                    0 <= j < ms0.len() && j != e && buffered_before(
                        buf,
                        b + 1,
                        j,
                    ) implies buffered_before(buf, b as int, j) by {
                        let k = choose|k: int| 0 <= k < b + 1 && (#[trigger] buf[k]).0 == j;
                        assert(0 <= k < b);
                    }
            }
            b += 1;
        }
        proof {
            assert forall|i: int|
                0 <= i < ms0.len() && ms0[i].can_act && ms0[i].ai is Cleric && cleric_phase1(
                    ms0,
                    i,
                    map0,
                    monsters@[i],
                    ppos,
                    player,
                ) implies cleric_decided(ms0, i, map0, monsters@[i], ppos, player) by {
                assert(map0.pos_in_bounds(ms0[i].pos));
                let o = ms0[i];
                let m = monsters@[i];
                if !cleric_heal_branch(ms0, i) && !next_to(o.pos, ppos) && (cleric_any_ally_visible(
                    ms0,
                    i,
                ) || target_visible(o, ppos)) {
                    lemma_field_ready_stay(map0, ms0, i, ppos, m.pos, m.viewshed.dirty);
                }
            }
        }
    }
}

/// An entity already handled by the first `n` buffered moves.
pub open spec fn buffered_before(buf: Seq<(usize, Position)>, n: int, j: int) -> bool {
    exists|k: int| 0 <= k < n && (#[trigger] buf[k]).0 == j
}

/// Occupancy law for one monster turn: the mover's tile stays claimed on
/// the blocked grid, and no tile other than the tiles it left and entered
/// changes — so positions and the blocked grid stay in agreement across a
/// decision pass whose steps satisfy `map_step_ok`.
pub proof fn lemma_map_step_occupancy(m0: GameMap, m1: GameMap, o: Monster, m: Monster)
    requires
        m0.wf(),
        m0.pos_in_bounds(o.pos),
        m0.pos_in_bounds(m.pos),
        map_step_ok(m0, m1, o, m),
        m0.blocked@[m0.spec_pos_idx(o.pos)],
    ensures
        m1.blocked@[m0.spec_pos_idx(m.pos)],
        forall|t: int|
            0 <= t < m0.blocked@.len() && t != m0.spec_pos_idx(o.pos) && t != m0.spec_pos_idx(
                m.pos,
            ) ==> #[trigger] m1.blocked@[t] == m0.blocked@[t],
{
    m0.lemma_idx_bounds(o.pos.x as int, o.pos.y as int);
    m0.lemma_idx_bounds(m.pos.x as int, m.pos.y as int);
}

/// Keep-following decay law: a basic-AI actor that is never adjacent to the
/// target and never sees it, starting with pursuit memory `k`, keeps taking
/// the pursuit branch for exactly `k` more decisions, its memory dropping by
/// one per tick; after the `k`-th decision the memory is exhausted, so the
/// next decision is no longer driven by pursuit (it idles or wanders).
///
/// `states[t]` is the actor before its `t`-th decision and `maps[t]` the map
/// it saw then; each consecutive pair is related by `basic_decided`.
pub proof fn lemma_keep_following_decay(
    states: Seq<Monster>,
    maps: Seq<GameMap>,
    ppos: Position,
    player: usize,
    k: int,
)
    requires
        0 <= k,
        states.len() == k + 1,
        maps.len() == k,
        states[0].ai is Basic,
        states[0].ai->Basic_0.keep_following_turns == k,
        forall|t: int|
            0 <= t < states.len() ==> !next_to((#[trigger] states[t]).pos, ppos)
                && !target_visible(states[t], ppos),
        forall|t: int|
            0 <= t < k ==> basic_decided(maps[t], #[trigger] states[t], states[t + 1], ppos, player),
    ensures
        forall|t: int|
            0 <= t <= k ==> (#[trigger] states[t]).ai is Basic
                && states[t].ai->Basic_0.keep_following_turns == k - t,
        forall|t: int|
            0 <= t < k ==> target_visible(#[trigger] states[t], ppos)
                || states[t].ai->Basic_0.keep_following_turns > 0,
        states[k].ai->Basic_0.keep_following_turns == 0,
        !(target_visible(states[k], ppos) || states[k].ai->Basic_0.keep_following_turns > 0),
    decreases k,
{
    if k > 0 {
        assert(basic_decided(maps[0], states[0], states[1], ppos, player));
        assert(states[1].ai is Basic && states[1].ai->Basic_0.keep_following_turns == k - 1);
        let states2 = states.subrange(1, states.len() as int);
        let maps2 = maps.subrange(1, maps.len() as int);
        assert forall|t: int| 0 <= t < states2.len() implies !next_to(
            (#[trigger] states2[t]).pos,
            ppos,
        ) && !target_visible(states2[t], ppos) by {
            assert(states2[t] == states[t + 1]);
        }
        assert forall|t: int| 0 <= t < k - 1 implies basic_decided(
            maps2[t],
            #[trigger] states2[t],
            states2[t + 1],
            ppos,
            player,
        ) by {
            assert(maps2[t] == maps[t + 1]);
            assert(states2[t] == states[t + 1]);
            assert(states2[t + 1] == states[t + 2]);
        }
        lemma_keep_following_decay(states2, maps2, ppos, player, k - 1);
        assert forall|t: int| 0 <= t <= k implies (#[trigger] states[t]).ai is Basic && states[t].ai->Basic_0.keep_following_turns
            == k - t by {
            if t > 0 {
                assert(states2[t - 1] == states[t]);
            }
        }
        assert(states2[k - 1] == states[k]);
    }
}

} // verus!
