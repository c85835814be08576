//! The routing-cost layer: which tiles an actor may traverse under its
//! movement-routing options, a bounded multi-source cost field over the grid,
//! and the steepest-descent step selection both stand-off positioning and
//! pursuit use.

use vstd::prelude::*;
use crate::components::MovementRoutingOptions;
use crate::map::{GameMap, TileType};

verus! {

/// Cost values reaching this cap count as unreachable: cost-field
/// propagation stops at this maximum relevant cost.
pub const COST_CAP: i32 = 100;

/// Whether an actor with the given routing options may traverse the tile at
/// row-major index `i`: never a wall, and never a blocked, burning or chilled
/// tile the options route around.
pub open spec fn spec_passable(m: GameMap, opts: MovementRoutingOptions, i: int) -> bool {
    &&& m.tiles@[i] != TileType::Wall
    &&& (opts.avoid_blocked ==> !m.blocked@[i])
    &&& (opts.avoid_fire ==> !m.fire@[i])
    &&& (opts.avoid_chill ==> !m.chill@[i])
}

/// Decides passability of one tile.
pub fn passable(m: &GameMap, opts: &MovementRoutingOptions, idx: usize) -> (r: bool)
    requires
        m.wf(),
        idx < m.area(),
    ensures
        r == spec_passable(*m, *opts, idx as int),
{
    let tile_ok = match m.tiles[idx] {
        TileType::Wall => false,
        TileType::Floor => true,
    };
    tile_ok && (!opts.avoid_blocked || !m.blocked[idx]) && (!opts.avoid_fire || !m.fire[idx]) && (
    !opts.avoid_chill || !m.chill[idx])
}

/// A king-move offset: one of the eight surrounding directions.
pub open spec fn neighbor8(dx: int, dy: int) -> bool {
    -1 <= dx <= 1 && -1 <= dy <= 1 && !(dx == 0 && dy == 0)
}

/// Index `i` is one of the given seed indices.
pub open spec fn is_seed(seeds: Seq<usize>, i: int) -> bool {
    exists|k: int| 0 <= k < seeds.len() && seeds[k] == i
}

/// The tile at (x, y) has a neighbor whose cost is exactly one lower: a
/// steepest-descent step from it makes progress toward a seed.
pub open spec fn has_lower_neighbor(m: GameMap, dist: Seq<i32>, x: int, y: int) -> bool {
    exists|dx: int, dy: int|
        neighbor8(dx, dy) && m.in_bounds(x + dx, y + dy) && #[trigger] dist[m.spec_idx(
            x + dx,
            y + dy,
        )] == dist[m.spec_idx(x, y)] - 1
}

/// Some in-bounds neighbor of (x, y) holds exactly the given cost.
pub open spec fn has_neighbor_at_level(
    m: GameMap,
    dist: Seq<i32>,
    x: int,
    y: int,
    level: int,
) -> bool {
    exists|dx: int, dy: int|
        neighbor8(dx, dy) && m.in_bounds(x + dx, y + dy) && #[trigger] dist[m.spec_idx(
            x + dx,
            y + dy,
        )] == level
}

/// The cost field never skips a step: a passable tile costs at most one
/// unit more than any neighbor whose cost lies below the given bound.
/// Together with the seed and descent properties this pins every cost below
/// the cap to the exact multi-source king-move distance from the seeds.
pub open spec fn no_cost_gap(
    m: GameMap,
    opts: MovementRoutingOptions,
    dist: Seq<i32>,
    bound: int,
) -> bool {
    forall|x: int, y: int, dx: int, dy: int|
        #![trigger m.spec_idx(x, y), m.spec_idx(x + dx, y + dy)]
        m.in_bounds(x, y) && neighbor8(dx, dy) && m.in_bounds(x + dx, y + dy) && spec_passable(
            m,
            opts,
            m.spec_idx(x, y),
        ) && dist[m.spec_idx(x + dx, y + dy)] < bound ==> dist[m.spec_idx(x, y)] <= dist[
            m.spec_idx(x + dx, y + dy)] + 1
}

/// A tile index reachable as one king move from `pos`.
pub open spec fn is_neighbor_idx(m: GameMap, pos: crate::components::Position, j: int) -> bool {
    exists|dx: int, dy: int|
        neighbor8(dx, dy) && m.in_bounds(pos.x + dx, pos.y + dy) && #[trigger] m.spec_idx(
            pos.x + dx,
            pos.y + dy,
        ) == j
}

/// The outcome of steepest-descent exit selection from `pos` on a cost
/// field: a minimal-cost passable king-move neighbor below the cap, or no
/// result exactly when every passable neighbor is at the cap (no seed
/// reachable within the maximum relevant cost).
pub open spec fn exit_ok(
    m: GameMap,
    opts: MovementRoutingOptions,
    dist: Seq<i32>,
    pos: crate::components::Position,
    r: Option<usize>,
) -> bool {
    match r {
        Some(j) => {
            &&& is_neighbor_idx(m, pos, j as int)
            &&& (j as int) < m.area()
            &&& spec_passable(m, opts, j as int)
            &&& dist[j as int] < COST_CAP
            &&& forall|dx: int, dy: int|
                neighbor8(dx, dy) && m.in_bounds(pos.x + dx, pos.y + dy) && spec_passable(
                    m,
                    opts,
                    #[trigger] m.spec_idx(pos.x + dx, pos.y + dy),
                ) ==> dist[j as int] <= dist[m.spec_idx(pos.x + dx, pos.y + dy)]
        },
        None => forall|dx: int, dy: int|
            neighbor8(dx, dy) && m.in_bounds(pos.x + dx, pos.y + dy) && spec_passable(
                m,
                opts,
                #[trigger] m.spec_idx(pos.x + dx, pos.y + dy),
            ) ==> dist[m.spec_idx(pos.x + dx, pos.y + dy)] >= COST_CAP,
    }
}

/// A fully propagated cost field for an abstract seed set `seedp`: zero
/// exactly on the passable in-range seed tiles, values below the cap only
/// on passable tiles, and both the descent and no-gap properties — which
/// together pin every below-cap value to the true multi-source king-move
/// distance from the seeds, so a field satisfying this is unique.
pub open spec fn cost_field_for(
    m: GameMap,
    opts: MovementRoutingOptions,
    seedp: spec_fn(int) -> bool,
    dist: Seq<i32>,
) -> bool {
    &&& dist.len() == m.area()
    &&& (forall|i: int| 0 <= i < m.area() ==> 0 <= #[trigger] dist[i] <= COST_CAP)
    &&& (forall|i: int|
        0 <= i < m.area() && #[trigger] dist[i] < COST_CAP ==> spec_passable(m, opts, i))
    &&& (forall|i: int| 0 <= i < m.area() && #[trigger] dist[i] == 0 ==> seedp(i))
    &&& (forall|i: int|
        0 <= i < m.area() && #[trigger] seedp(i) && spec_passable(m, opts, i) ==> dist[i] == 0)
    &&& (forall|x: int, y: int|
        #![trigger m.spec_idx(x, y)]
        m.in_bounds(x, y) && 0 < dist[m.spec_idx(x, y)] < COST_CAP ==> has_lower_neighbor(
            m,
            dist,
            x,
            y,
        ))
    &&& no_cost_gap(m, opts, dist, COST_CAP - 1)
}

/// Whether some in-bounds neighbor of (x, y) currently holds cost `level`.
#[verifier::loop_isolation(false)]
fn any_neighbor_at_level(m: &GameMap, dist: &Vec<i32>, x: i32, y: i32, level: i32) -> (r: bool)
    requires
        m.wf(),
        dist@.len() == m.area(),
        m.in_bounds(x as int, y as int),
    ensures
        r == has_neighbor_at_level(*m, dist@, x as int, y as int, level as int),
{
    let mut dx: i32 = -1;
    while dx <= 1
        invariant
            -1 <= dx <= 2,
            forall|ddx: int, ddy: int|
                neighbor8(ddx, ddy) && ddx < dx && m.in_bounds(x + ddx, y + ddy)
                    ==> #[trigger] dist@[m.spec_idx(x + ddx, y + ddy)] != level,
        decreases 2 - dx,
    {
        let mut dy: i32 = -1;
        while dy <= 1
            invariant
                -1 <= dx <= 1,
                -1 <= dy <= 2,
                forall|ddx: int, ddy: int|
                    neighbor8(ddx, ddy) && ddx < dx && m.in_bounds(x + ddx, y + ddy)
                        ==> #[trigger] dist@[m.spec_idx(x + ddx, y + ddy)] != level,
                forall|ddy: int|
                    neighbor8(dx as int, ddy) && ddy < dy && m.in_bounds(x + dx, y + ddy)
                        ==> #[trigger] dist@[m.spec_idx(x + dx, y + ddy)] != level,
            decreases 2 - dy,
        {
            if !(dx == 0 && dy == 0) {
                let nx = x + dx;
                let ny = y + dy;
                if 0 <= nx && nx < m.width && 0 <= ny && ny < m.height {
                    let nidx = m.xy_idx(nx, ny);
                    if dist[nidx] == level {
                        return true;
                    }
                }
            }
            dy += 1;
        }
        dx += 1;
    }
    false
}

/// The safety core of a cost field: bounded values, costs below the cap
/// only on passable tiles, zero exactly on (passable, in-range) seeds, and
/// the descent property that every reached tile has a neighbor one unit
/// cheaper.
pub open spec fn field_safe(
    m: GameMap,
    opts: MovementRoutingOptions,
    seeds: Seq<usize>,
    dist: Seq<i32>,
) -> bool {
    &&& dist.len() == m.area()
    &&& forall|i: int| 0 <= i < m.area() ==> 0 <= #[trigger] dist[i] <= COST_CAP
    &&& forall|i: int|
        0 <= i < m.area() && #[trigger] dist[i] < COST_CAP ==> spec_passable(m, opts, i)
    &&& forall|i: int| 0 <= i < m.area() && #[trigger] dist[i] == 0 ==> is_seed(seeds, i)
    &&& forall|k: int|
        0 <= k < seeds.len() && #[trigger] seeds[k] < m.area() && spec_passable(
            m,
            opts,
            seeds[k] as int,
        ) ==> dist[seeds[k] as int] == 0
    &&& forall|x: int, y: int|
        #![trigger m.spec_idx(x, y)]
        m.in_bounds(x, y) && 0 < dist[m.spec_idx(x, y)] < COST_CAP ==> has_lower_neighbor(
            m,
            dist,
            x,
            y,
        )
}

/// Every cost is either the cap or at most the given level.
pub open spec fn level_bounded(m: GameMap, dist: Seq<i32>, level: int) -> bool {
    forall|i: int| 0 <= i < m.area() ==> #[trigger] dist[i] == COST_CAP || dist[i] <= level
}

/// The first `rows` rows are fully propagated for this round: every
/// passable tile there with a neighbor at the round's level has been
/// reached.
pub open spec fn rows_complete(
    m: GameMap,
    opts: MovementRoutingOptions,
    dist: Seq<i32>,
    rows: int,
    round: int,
) -> bool {
    forall|xx: int, yy: int|
        #![trigger m.spec_idx(xx, yy)]
        m.in_bounds(xx, yy) && yy < rows && spec_passable(m, opts, m.spec_idx(xx, yy))
            && has_neighbor_at_level(m, dist, xx, yy, round) ==> dist[m.spec_idx(xx, yy)]
            < COST_CAP
}

/// A cost field that has finished propagating up to `round`.
pub open spec fn field_ok(
    m: GameMap,
    opts: MovementRoutingOptions,
    seeds: Seq<usize>,
    dist: Seq<i32>,
    round: int,
) -> bool {
    &&& field_safe(m, opts, seeds, dist)
    &&& no_cost_gap(m, opts, dist, round)
    &&& level_bounded(m, dist, round)
}

/// Updating one unreached frontier-adjacent tile to the next cost level
/// preserves the field's safety and level-bound properties and leaves the
/// round's frontier untouched.
#[verifier::rlimit(100)]
proof fn lemma_relax_core(
    m: GameMap,
    opts: MovementRoutingOptions,
    seeds: Seq<usize>,
    dist0: Seq<i32>,
    dist1: Seq<i32>,
    x: int,
    y: int,
    round: int,
)
    requires
        m.wf(),
        m.in_bounds(x, y),
        0 <= round < COST_CAP - 1,
        field_safe(m, opts, seeds, dist0),
        level_bounded(m, dist0, round + 1),
        dist0[m.spec_idx(x, y)] == COST_CAP,
        spec_passable(m, opts, m.spec_idx(x, y)),
        has_neighbor_at_level(m, dist0, x, y, round),
        dist1 == dist0.update(m.spec_idx(x, y), (round + 1) as i32),
    ensures
        field_safe(m, opts, seeds, dist1),
        level_bounded(m, dist1, round + 1),
        forall|xx: int, yy: int|
            #![trigger m.spec_idx(xx, yy)]
            m.in_bounds(xx, yy) ==> has_neighbor_at_level(m, dist1, xx, yy, round)
                == has_neighbor_at_level(m, dist0, xx, yy, round),
{
    assert forall|xx: int, yy: int| m.in_bounds(xx, yy) implies 0 <= m.spec_idx(xx, yy)
        < m.area() by {
        m.lemma_idx_bounds(xx, yy);
    }
    assert forall|xx: int, yy: int|
        m.in_bounds(xx, yy) && !(xx == x && yy == y) implies m.spec_idx(xx, yy) != m.spec_idx(
        x,
        y,
    ) by {
        if m.spec_idx(xx, yy) == m.spec_idx(x, y) {
            m.lemma_idx_injective(xx, yy, x, y);
        }
    }
    let (wdx, wdy) = choose|dx: int, dy: int|
        neighbor8(dx, dy) && m.in_bounds(x + dx, y + dy) && #[trigger] dist0[m.spec_idx(
            x + dx,
            y + dy,
        )] == round;
    assert(dist1[m.spec_idx(x + wdx, y + wdy)] == round);
    assert(has_lower_neighbor(m, dist1, x, y));
    assert forall|xx: int, yy: int|
        m.in_bounds(xx, yy) && 0 < dist1[m.spec_idx(xx, yy)] < COST_CAP implies has_lower_neighbor(
        m,
        dist1,
        xx,
        yy,
    ) by {
        if xx == x && yy == y {
        } else {
            assert(0 < dist0[m.spec_idx(xx, yy)] < COST_CAP);
            assert(has_lower_neighbor(m, dist0, xx, yy));
            let (ndx, ndy) = choose|ndx: int, ndy: int|
                neighbor8(ndx, ndy) && m.in_bounds(xx + ndx, yy + ndy) && #[trigger] dist0[
                    m.spec_idx(xx + ndx, yy + ndy)] == dist0[m.spec_idx(xx, yy)] - 1;
            assert(dist1[m.spec_idx(xx + ndx, yy + ndy)] == dist1[m.spec_idx(xx, yy)] - 1);
        }
    }
    assert forall|xx: int, yy: int|
        m.in_bounds(xx, yy) implies (has_neighbor_at_level(m, dist1, xx, yy, round)
        == has_neighbor_at_level(m, dist0, xx, yy, round)) by {
        if has_neighbor_at_level(m, dist1, xx, yy, round) {
            let (adx, ady) = choose|adx: int, ady: int|
                neighbor8(adx, ady) && m.in_bounds(xx + adx, yy + ady) && #[trigger] dist1[
                    m.spec_idx(xx + adx, yy + ady)] == round;
            assert(dist0[m.spec_idx(xx + adx, yy + ady)] == round);
        }
        if has_neighbor_at_level(m, dist0, xx, yy, round) {
            let (bdx, bdy) = choose|bdx: int, bdy: int|
                neighbor8(bdx, bdy) && m.in_bounds(xx + bdx, yy + bdy) && #[trigger] dist0[
                    m.spec_idx(xx + bdx, yy + bdy)] == round;
            assert(dist1[m.spec_idx(xx + bdx, yy + bdy)] == round);
        }
    }
}

/// The same update also keeps the field free of cost gaps below the
/// round's level.
#[verifier::rlimit(100)]
proof fn lemma_relax_gap(
    m: GameMap,
    opts: MovementRoutingOptions,
    dist0: Seq<i32>,
    dist1: Seq<i32>,
    x: int,
    y: int,
    round: int,
)
    requires
        m.wf(),
        m.in_bounds(x, y),
        0 <= round < COST_CAP - 1,
        dist0.len() == m.area(),
        no_cost_gap(m, opts, dist0, round),
        dist0[m.spec_idx(x, y)] == COST_CAP,
        spec_passable(m, opts, m.spec_idx(x, y)),
        dist1 == dist0.update(m.spec_idx(x, y), (round + 1) as i32),
    ensures
        no_cost_gap(m, opts, dist1, round),
{
    assert forall|xx: int, yy: int| m.in_bounds(xx, yy) implies 0 <= m.spec_idx(xx, yy)
        < m.area() by {
        m.lemma_idx_bounds(xx, yy);
    }
    assert forall|xx: int, yy: int|
        m.in_bounds(xx, yy) && !(xx == x && yy == y) implies m.spec_idx(xx, yy) != m.spec_idx(
        x,
        y,
    ) by {
        if m.spec_idx(xx, yy) == m.spec_idx(x, y) {
            m.lemma_idx_injective(xx, yy, x, y);
        }
    }
    assert forall|px: int, py: int, pdx: int, pdy: int|
        m.in_bounds(px, py) && neighbor8(pdx, pdy) && m.in_bounds(px + pdx, py + pdy)
            && spec_passable(m, opts, m.spec_idx(px, py)) && dist1[m.spec_idx(px + pdx, py + pdy)]
            < round implies dist1[m.spec_idx(px, py)] <= dist1[m.spec_idx(px + pdx, py + pdy)]
        + 1 by {
        assert(dist1[m.spec_idx(px + pdx, py + pdy)] == dist0[m.spec_idx(px + pdx, py + pdy)]);
        if px == x && py == y {
            assert(dist0[m.spec_idx(px, py)] <= dist0[m.spec_idx(px + pdx, py + pdy)] + 1);
        } else {
            assert(dist1[m.spec_idx(px, py)] == dist0[m.spec_idx(px, py)]);
        }
    }
}

/// Brings one tile to the next cost level when it is passable, still
/// unreached and touches the round's frontier; otherwise changes nothing.
#[verifier::loop_isolation(false)]
#[verifier::rlimit(100)]
fn relax_tile(
    m: &GameMap,
    opts: &MovementRoutingOptions,
    seeds: &Vec<usize>,
    dist: &mut Vec<i32>,
    x: i32,
    y: i32,
    round: i32,
)
    requires
        m.wf(),
        0 <= round < COST_CAP - 1,
        m.in_bounds(x as int, y as int),
        field_safe(*m, *opts, seeds@, old(dist)@),
        no_cost_gap(*m, *opts, old(dist)@, round as int),
        level_bounded(*m, old(dist)@, round + 1),
    ensures
        field_safe(*m, *opts, seeds@, final(dist)@),
        no_cost_gap(*m, *opts, final(dist)@, round as int),
        level_bounded(*m, final(dist)@, round + 1),
        forall|i: int|
            0 <= i < m.area() && i != m.spec_idx(x as int, y as int)
                ==> #[trigger] final(dist)@[i] == old(dist)@[i],
        forall|i: int|
            0 <= i < m.area() && #[trigger] old(dist)@[i] < COST_CAP
                ==> final(dist)@[i] == old(dist)@[i],
        forall|xx: int, yy: int|
            #![trigger m.spec_idx(xx, yy)]
            m.in_bounds(xx, yy) ==> has_neighbor_at_level(
                *m,
                final(dist)@,
                xx,
                yy,
                round as int,
            ) == has_neighbor_at_level(*m, old(dist)@, xx, yy, round as int),
        spec_passable(*m, *opts, m.spec_idx(x as int, y as int)) && has_neighbor_at_level(
            *m,
            old(dist)@,
            x as int,
            y as int,
            round as int,
        ) ==> final(dist)@[m.spec_idx(x as int, y as int)] < COST_CAP,
{
    proof {
        assert forall|xx: int, yy: int| m.in_bounds(xx, yy) implies 0 <= m.spec_idx(xx, yy)
            < m.area() by {
            m.lemma_idx_bounds(xx, yy);
        }
        assert forall|xx: int, yy: int|
            m.in_bounds(xx, yy) && !(xx == x && yy == y) implies m.spec_idx(xx, yy)
            != m.spec_idx(x as int, y as int) by {
            if m.spec_idx(xx, yy) == m.spec_idx(x as int, y as int) {
                m.lemma_idx_injective(xx, yy, x as int, y as int);
            }
        }
    }
    let i = m.xy_idx(x, y);
    if dist[i] == COST_CAP && passable(m, opts, i) {
        if any_neighbor_at_level(m, &dist, x, y, round) {
            let ghost dist0 = dist@;
            dist[i] = round + 1;
            proof {
                assert(dist@ == dist0.update(m.spec_idx(x as int, y as int), (round + 1) as i32));
                lemma_relax_core(
                    *m,
                    *opts,
                    seeds@,
                    dist0,
                    dist@,
                    x as int,
                    y as int,
                    round as int,
                );
                lemma_relax_gap(*m, *opts, dist0, dist@, x as int, y as int, round as int);
            }
        }
    }
}

/// Scans one row for the given round: every passable tile of the row that
/// touches a tile at the round's cost level is brought to the next level.
#[verifier::loop_isolation(false)]
#[verifier::rlimit(100)]
fn propagate_row(
    m: &GameMap,
    opts: &MovementRoutingOptions,
    seeds: &Vec<usize>,
    dist: &mut Vec<i32>,
    y: i32,
    round: i32,
)
    requires
        m.wf(),
        0 <= round < COST_CAP - 1,
        0 <= y < m.height,
        field_safe(*m, *opts, seeds@, old(dist)@),
        no_cost_gap(*m, *opts, old(dist)@, round as int),
        level_bounded(*m, old(dist)@, round + 1),
        rows_complete(*m, *opts, old(dist)@, y as int, round as int),
    ensures
        field_safe(*m, *opts, seeds@, final(dist)@),
        no_cost_gap(*m, *opts, final(dist)@, round as int),
        level_bounded(*m, final(dist)@, round + 1),
        rows_complete(*m, *opts, final(dist)@, y + 1, round as int),
{
    proof {
        assert forall|xx: int, yy: int| m.in_bounds(xx, yy) implies 0 <= m.spec_idx(xx, yy)
            < m.area() by {
            m.lemma_idx_bounds(xx, yy);
        }
    }
    let mut x: i32 = 0;
    while x < m.width
        invariant
            0 <= x <= m.width,
            field_safe(*m, *opts, seeds@, dist@),
            no_cost_gap(*m, *opts, dist@, round as int),
            level_bounded(*m, dist@, round + 1),
            rows_complete(*m, *opts, dist@, y as int, round as int),
            forall|xx: int|
                #![trigger m.spec_idx(xx, y as int)]
                0 <= xx < x && spec_passable(*m, *opts, m.spec_idx(xx, y as int))
                    && has_neighbor_at_level(*m, dist@, xx, y as int, round as int) ==> dist@[
                    m.spec_idx(xx, y as int)] < COST_CAP,
        decreases m.width - x,
    {
        let ghost before = dist@;
        relax_tile(m, opts, seeds, dist, x, y, round);
        proof {
            assert forall|xx: int, yy: int|
                m.in_bounds(xx, yy) && yy < y && spec_passable(*m, *opts, m.spec_idx(xx, yy))
                    && has_neighbor_at_level(*m, dist@, xx, yy, round as int) implies dist@[
                m.spec_idx(xx, yy)] < COST_CAP by {
                assert(has_neighbor_at_level(*m, before, xx, yy, round as int));
                assert(before[m.spec_idx(xx, yy)] < COST_CAP);
            }
            assert forall|xx: int|
                0 <= xx < x + 1 && spec_passable(*m, *opts, m.spec_idx(xx, y as int))
                    && has_neighbor_at_level(*m, dist@, xx, y as int, round as int) implies dist@[
                m.spec_idx(xx, y as int)] < COST_CAP by {
                assert(has_neighbor_at_level(*m, before, xx, y as int, round as int));
                if xx < x {
                    assert(before[m.spec_idx(xx, y as int)] < COST_CAP);
                } else {
                    assert(xx == x);
                    assert(spec_passable(*m, *opts, m.spec_idx(x as int, y as int)));
                    assert(has_neighbor_at_level(*m, before, x as int, y as int, round as int));
                    assert(dist@[m.spec_idx(x as int, y as int)] < COST_CAP);
                }
            }
        }
        x += 1;
    }
}

/// One full propagation round: after it, no passable tile sits more than
/// one unit above any neighbor with a cost up to the round's level.
#[verifier::loop_isolation(false)]
#[verifier::rlimit(60)]
fn propagate_round(
    m: &GameMap,
    opts: &MovementRoutingOptions,
    seeds: &Vec<usize>,
    dist: &mut Vec<i32>,
    round: i32,
)
    requires
        m.wf(),
        0 <= round < COST_CAP - 1,
        field_ok(*m, *opts, seeds@, old(dist)@, round as int),
    ensures
        field_ok(*m, *opts, seeds@, final(dist)@, round + 1),
{
    proof {
        assert forall|xx: int, yy: int| m.in_bounds(xx, yy) implies 0 <= m.spec_idx(xx, yy)
            < m.area() by {
            m.lemma_idx_bounds(xx, yy);
        }
    }
    let mut y: i32 = 0;
    while y < m.height
        invariant
            0 <= y <= m.height,
            field_safe(*m, *opts, seeds@, dist@),
            no_cost_gap(*m, *opts, dist@, round as int),
            level_bounded(*m, dist@, round + 1),
            rows_complete(*m, *opts, dist@, y as int, round as int),
        decreases m.height - y,
    {
        propagate_row(m, opts, seeds, dist, y, round);
        y += 1;
    }
    proof {
        assert forall|px: int, py: int, pdx: int, pdy: int|
            m.in_bounds(px, py) && neighbor8(pdx, pdy) && m.in_bounds(px + pdx, py + pdy)
                && spec_passable(*m, *opts, m.spec_idx(px, py)) && dist@[m.spec_idx(
                px + pdx,
                py + pdy,
            )] < round + 1 implies dist@[m.spec_idx(px, py)] <= dist@[m.spec_idx(
            px + pdx,
            py + pdy,
        )] + 1 by {
            if dist@[m.spec_idx(px + pdx, py + pdy)] == round {
                assert(has_neighbor_at_level(*m, dist@, px, py, round as int));
                assert(dist@[m.spec_idx(px, py)] < COST_CAP);
                assert(dist@[m.spec_idx(px, py)] <= round + 1);
            }
        }
        assert(no_cost_gap(*m, *opts, dist@, round + 1));
    }
}

/// Builds the bounded multi-source cost field: every passable in-range seed
/// tile costs zero, and costs propagate outward one king-move step per unit,
/// capped at `COST_CAP` (unreachable).  Every tile with a positive cost below
/// the cap has a neighbor exactly one unit cheaper, so steepest descent from
/// any reached tile makes progress toward a seed; and no passable tile sits
/// more than one unit above a neighbor below the cap, so every reached cost
/// is the true distance to the seeds.
#[verifier::loop_isolation(false)]
pub fn cost_field(m: &GameMap, opts: &MovementRoutingOptions, seeds: &Vec<usize>) -> (dist: Vec<
    i32,
>)
    requires
        m.wf(),
    ensures
        dist@.len() == m.area(),
        forall|i: int| 0 <= i < m.area() ==> 0 <= #[trigger] dist@[i] <= COST_CAP,
        forall|i: int|
            0 <= i < m.area() && #[trigger] dist@[i] < COST_CAP ==> spec_passable(*m, *opts, i),
        forall|i: int| 0 <= i < m.area() && #[trigger] dist@[i] == 0 ==> is_seed(seeds@, i),
        forall|k: int|
            0 <= k < seeds@.len() && #[trigger] seeds@[k] < m.area() && spec_passable(
                *m,
                *opts,
                seeds@[k] as int,
            ) ==> dist@[seeds@[k] as int] == 0,
        forall|x: int, y: int|
            #![trigger m.spec_idx(x, y)]
            m.in_bounds(x, y) && 0 < dist@[m.spec_idx(x, y)] < COST_CAP ==> has_lower_neighbor(
                *m,
                dist@,
                x,
                y,
            ),
        no_cost_gap(*m, *opts, dist@, COST_CAP - 1),
    {
        proof {
            m.lemma_idx_bounds(0, 0);
            assert forall|x: int, y: int| m.in_bounds(x, y) implies 0 <= m.spec_idx(x, y)
                < m.area() by {
                m.lemma_idx_bounds(x, y);
            }
        }
        let area: usize = (m.width as usize) * (m.height as usize);
        let mut dist: Vec<i32> = vec![COST_CAP; area];
        // Seed pass: passable in-range seeds get cost zero.
        let mut k: usize = 0;
        while k < seeds.len()
            invariant
                dist@.len() == m.area(),
                forall|i: int| 0 <= i < m.area() ==> #[trigger] dist@[i] == 0 || dist@[i] == COST_CAP,
                forall|i: int| 0 <= i < m.area() && #[trigger] dist@[i] == 0 ==> is_seed(seeds@, i)
                    && spec_passable(*m, *opts, i),
                forall|j: int|
                    0 <= j < k && #[trigger] seeds@[j] < m.area() && spec_passable(
                        *m,
                        *opts,
                        seeds@[j] as int,
                    ) ==> dist@[seeds@[j] as int] == 0,
            decreases seeds@.len() - k,
        {
            let s = seeds[k];
            if s < area {
                if passable(m, opts, s) {
                    dist[s] = 0;
                }
            }
            k += 1;
        }
        // Propagation: each round extends the frontier by one king move.
        let mut round: i32 = 0;
        while round < COST_CAP - 1
            invariant
                0 <= round <= COST_CAP - 1,
                field_ok(*m, *opts, seeds@, dist@, round as int),
            decreases COST_CAP - round,
        {
            propagate_round(m, opts, seeds, &mut dist, round);
            round += 1;
        }
        dist
    }

/// Among the in-bounds passable neighbors of `pos`, returns the index of one
/// with minimal cost below the cap: the steepest-descent step.  No result
/// when no passable neighbor is reached by the cost field.
#[verifier::loop_isolation(false)]
pub fn find_lowest_exit(m: &GameMap, opts: &MovementRoutingOptions, dist: &Vec<i32>, pos: crate::components::Position) -> (r: Option<usize>)
    requires
        m.wf(),
        dist@.len() == m.area(),
        m.pos_in_bounds(pos),
    ensures
        r matches Some(j) ==> exists|dx: int, dy: int|
            neighbor8(dx, dy) && m.in_bounds(pos.x + dx, pos.y + dy) && #[trigger] m.spec_idx(
                pos.x + dx,
                pos.y + dy,
            ) == j,
        r matches Some(j) ==> j < m.area() && spec_passable(*m, *opts, j as int) && dist@[j as int]
            < COST_CAP,
        r matches Some(j) ==> forall|dx: int, dy: int|
            neighbor8(dx, dy) && m.in_bounds(pos.x + dx, pos.y + dy) && spec_passable(
                *m,
                *opts,
                #[trigger] m.spec_idx(pos.x + dx, pos.y + dy),
            ) ==> dist@[j as int] <= dist@[m.spec_idx(pos.x + dx, pos.y + dy)],
        r is None ==> forall|dx: int, dy: int|
            neighbor8(dx, dy) && m.in_bounds(pos.x + dx, pos.y + dy) && spec_passable(
                *m,
                *opts,
                #[trigger] m.spec_idx(pos.x + dx, pos.y + dy),
            ) ==> dist@[m.spec_idx(pos.x + dx, pos.y + dy)] >= COST_CAP,
        exit_ok(*m, *opts, dist@, pos, r),
{
    let x = pos.x;
    let y = pos.y;
    let mut best: Option<usize> = None;
    let mut dx: i32 = -1;
    while dx <= 1
        invariant
            -1 <= dx <= 2,
            best matches Some(j) ==> exists|ddx: int, ddy: int|
                neighbor8(ddx, ddy) && m.in_bounds(x + ddx, y + ddy) && #[trigger] m.spec_idx(
                    x + ddx,
                    y + ddy,
                ) == j,
            best matches Some(j) ==> j < m.area() && spec_passable(*m, *opts, j as int) && dist@[
                j as int] < COST_CAP,
            best matches Some(j) ==> forall|ddx: int, ddy: int|
                neighbor8(ddx, ddy) && ddx < dx && m.in_bounds(x + ddx, y + ddy) && spec_passable(
                    *m,
                    *opts,
                    #[trigger] m.spec_idx(x + ddx, y + ddy),
                ) ==> dist@[j as int] <= dist@[m.spec_idx(x + ddx, y + ddy)],
            best is None ==> forall|ddx: int, ddy: int|
                neighbor8(ddx, ddy) && ddx < dx && m.in_bounds(x + ddx, y + ddy) && spec_passable(
                    *m,
                    *opts,
                    #[trigger] m.spec_idx(x + ddx, y + ddy),
                ) ==> dist@[m.spec_idx(x + ddx, y + ddy)] >= COST_CAP,
        decreases 2 - dx,
    {
        let mut dy: i32 = -1;
        while dy <= 1
            invariant
                -1 <= dx <= 1,
                -1 <= dy <= 2,
                best matches Some(j) ==> exists|ddx: int, ddy: int|
                    neighbor8(ddx, ddy) && m.in_bounds(x + ddx, y + ddy) && #[trigger] m.spec_idx(
                        x + ddx,
                        y + ddy,
                    ) == j,
                best matches Some(j) ==> j < m.area() && spec_passable(*m, *opts, j as int)
                    && dist@[j as int] < COST_CAP,
                best matches Some(j) ==> forall|ddx: int, ddy: int|
                    neighbor8(ddx, ddy) && (ddx < dx || (ddx == dx && ddy < dy)) && m.in_bounds(
                        x + ddx,
                        y + ddy,
                    ) && spec_passable(*m, *opts, #[trigger] m.spec_idx(x + ddx, y + ddy))
                        ==> dist@[j as int] <= dist@[m.spec_idx(x + ddx, y + ddy)],
                best is None ==> forall|ddx: int, ddy: int|
                    neighbor8(ddx, ddy) && (ddx < dx || (ddx == dx && ddy < dy)) && m.in_bounds(
                        x + ddx,
                        y + ddy,
                    ) && spec_passable(*m, *opts, #[trigger] m.spec_idx(x + ddx, y + ddy))
                        ==> dist@[m.spec_idx(x + ddx, y + ddy)] >= COST_CAP,
            decreases 2 - dy,
        {
            if !(dx == 0 && dy == 0) {
                let nx = x + dx;
                let ny = y + dy;
                if 0 <= nx && nx < m.width && 0 <= ny && ny < m.height {
                    let nidx = m.xy_idx(nx, ny);
                    if passable(m, opts, nidx) && dist[nidx] < COST_CAP {
                        let take = match best {
                            None => true,
                            Some(b) => dist[nidx] < dist[b],
                        };
                        if take {
                            best = Some(nidx);
                        }
                    }
                }
            }
            dy += 1;
        }
        dx += 1;
    }
    best
}

} // verus!
