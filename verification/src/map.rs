//! The dungeon map: a rectangular grid of tiles with the global per-tile
//! flags (blocked, spawn-eligible, fire, chill) that the AI, hazard and
//! spawning systems share, plus the room-and-corridor generator.

use vstd::prelude::*;
use vstd::arithmetic::div_mod::{lemma_fundamental_div_mod, lemma_multiply_divide_lt};
use crate::components::{chebyshev_dist, Position};
use crate::rng::rng_range;
use crate::rng::rng_roll_dice;

verus! {

broadcast use vstd::seq_lib::lemma_seq_contains_after_push;

pub const MAP_WIDTH: i32 = 80;

pub const MAP_HEIGHT: i32 = 50;

pub const MAX_ROOMS: i32 = 30;

const MIN_ROOM_SIZE: i32 = 6;

const MAX_ROOM_SIZE: i32 = 10;

/// The tiles carved to floor by `apply_room`: the room's interior.
pub open spec fn room_interior(room: Rectangle, x: int, y: int) -> bool {
    room.x1 < x <= room.x2 && room.y1 < y <= room.y2
}

/// A room that fits the generator's placement bounds.
pub open spec fn room_in_map(m: GameMap, room: Rectangle) -> bool {
    0 <= room.x1 < room.x2 <= m.width - 2 && 0 <= room.y1 < room.y2 <= m.height - 2
}

#[derive(Clone, Copy, PartialEq, Eq, Structural, Debug)]
pub enum TileType {
    Wall,
    Floor,
}

/// An axis-aligned room, stored by its two corners.
#[derive(Clone, Copy, PartialEq, Eq, Structural, Debug)]
pub struct Rectangle {
    pub x1: i32,
    pub y1: i32,
    pub x2: i32,
    pub y2: i32,
}

impl Rectangle {
    pub fn new(x: i32, y: i32, w: i32, h: i32) -> (r: Rectangle)
        requires
            0 <= x,
            0 <= y,
            0 < w,
            0 < h,
            x + w <= 1000000,
            y + h <= 1000000,
        ensures
            r == (Rectangle { x1: x, y1: y, x2: (x + w) as i32, y2: (y + h) as i32 }),
    {
        Rectangle { x1: x, y1: y, x2: x + w, y2: y + h }
    }

    /// Whether two rooms overlap (sharing an edge counts as overlap).
    pub open spec fn spec_intersect(self, other: Rectangle) -> bool {
        self.x1 <= other.x2 && self.x2 >= other.x1 && self.y1 <= other.y2 && self.y2 >= other.y1
    }

    pub fn intersect(&self, other: &Rectangle) -> (r: bool)
        ensures
            r == self.spec_intersect(*other),
    {
        self.x1 <= other.x2 && self.x2 >= other.x1 && self.y1 <= other.y2 && self.y2 >= other.y1
    }

    pub fn center(&self) -> (c: (i32, i32))
        requires
            0 <= self.x1 <= self.x2 <= 1000000,
            0 <= self.y1 <= self.y2 <= 1000000,
        ensures
            c.0 == (self.x1 + self.x2) / 2,
            c.1 == (self.y1 + self.y2) / 2,
            self.x1 <= c.0 <= self.x2,
            self.y1 <= c.1 <= self.y2,
    {
        ((self.x1 + self.x2) / 2, (self.y1 + self.y2) / 2)
    }
}

/// Row-major index of coordinate (x, y) on a grid of width `w`.
pub open spec fn row_idx(w: int, x: int, y: int) -> int {
    y * w + x
}

/// On any fixed width, distinct in-row-range coordinates give distinct
/// row-major indices.
pub proof fn lemma_row_idx_injective()
    ensures
        forall|w: int, x1: int, y1: int, x2: int, y2: int|
            #![trigger row_idx(w, x1, y1), row_idx(w, x2, y2)]
            0 < w && 0 <= x1 < w && 0 <= x2 < w && row_idx(w, x1, y1) == row_idx(w, x2, y2)
                ==> x1 == x2 && y1 == y2,
{
    assert forall|w: int, x1: int, y1: int, x2: int, y2: int|
        0 < w && 0 <= x1 < w && 0 <= x2 < w && row_idx(w, x1, y1) == row_idx(w, x2, y2)
        implies x1 == x2 && y1 == y2 by {
        assert(x1 == x2 && y1 == y2) by (nonlinear_arith)
            requires
                0 < w,
                0 <= x1 < w,
                0 <= x2 < w,
                y1 * w + x1 == y2 * w + x2,
        ;
    }
}

/// The shared spatial state of the simulation.  Every per-tile vector has one
/// entry per grid cell, in row-major order.
pub struct GameMap {
    pub tiles: Vec<TileType>,
    pub rooms: Vec<Rectangle>,
    pub revealed_tiles: Vec<bool>,
    pub visible_tiles: Vec<bool>,
    /// Tiles no actor may step onto (walls and occupied tiles).
    pub blocked: Vec<bool>,
    /// Tiles still eligible to receive a spawned entity.
    pub ok_to_spawn: Vec<bool>,
    /// Per-tile flag: a fire hazard entity occupies this tile.
    pub fire: Vec<bool>,
    /// Per-tile flag: a chill hazard entity occupies this tile.
    pub chill: Vec<bool>,
    pub width: i32,
    pub height: i32,
}

impl GameMap {
    /// Number of grid cells.
    pub open spec fn area(self) -> int {
        self.width * self.height
    }

    /// Well-formedness: positive bounded dimensions and per-tile vectors of
    /// matching length.
    pub open spec fn wf(self) -> bool {
        &&& 0 < self.width <= 4096
        &&& 0 < self.height <= 4096
        &&& self.tiles@.len() == self.area()
        &&& self.revealed_tiles@.len() == self.area()
        &&& self.visible_tiles@.len() == self.area()
        &&& self.blocked@.len() == self.area()
        &&& self.ok_to_spawn@.len() == self.area()
        &&& self.fire@.len() == self.area()
        &&& self.chill@.len() == self.area()
    }

    pub open spec fn in_bounds(self, x: int, y: int) -> bool {
        0 <= x < self.width && 0 <= y < self.height
    }

    pub open spec fn pos_in_bounds(self, p: Position) -> bool {
        self.in_bounds(p.x as int, p.y as int)
    }

    /// Row-major index of a coordinate.
    pub open spec fn spec_idx(self, x: int, y: int) -> int {
        row_idx(self.width as int, x, y)
    }

    pub open spec fn spec_pos_idx(self, p: Position) -> int {
        self.spec_idx(p.x as int, p.y as int)
    }

    pub proof fn lemma_idx_bounds(self, x: int, y: int)
        requires
            self.wf(),
            self.in_bounds(x, y),
        ensures
            0 <= self.spec_idx(x, y) < self.area(),
            self.area() <= 16777216,
    {
        assert(0 <= y * self.width + x < self.width * self.height && self.width * self.height
            <= 16777216) by (nonlinear_arith)
            requires
                0 <= x < self.width,
                0 <= y < self.height,
                self.width <= 4096,
                self.height <= 4096,
        ;
    }

    /// Distinct in-bounds coordinates have distinct row-major indices.
    pub proof fn lemma_idx_injective(self, x1: int, y1: int, x2: int, y2: int)
        requires
            self.wf(),
            self.in_bounds(x1, y1),
            self.in_bounds(x2, y2),
            self.spec_idx(x1, y1) == self.spec_idx(x2, y2),
        ensures
            x1 == x2 && y1 == y2,
    {
        assert(x1 == x2 && y1 == y2) by (nonlinear_arith)
            requires
                0 <= x1 < self.width,
                0 <= x2 < self.width,
                0 <= y1 < self.height,
                0 <= y2 < self.height,
                y1 * self.width + x1 == y2 * self.width + x2,
        ;
    }

    /// Row-major index of a coordinate.
    pub fn xy_idx(&self, x: i32, y: i32) -> (idx: usize)
        requires
            self.wf(),
            self.in_bounds(x as int, y as int),
        ensures
            idx == self.spec_idx(x as int, y as int),
            idx < self.area(),
    {
        proof {
            self.lemma_idx_bounds(x as int, y as int);
        }
        (y * self.width) as usize + x as usize
    }

    /// Row-major index of a position.
    pub fn pos_idx(&self, p: Position) -> (idx: usize)
        requires
            self.wf(),
            self.pos_in_bounds(p),
        ensures
            idx == self.spec_pos_idx(p),
            idx < self.area(),
    {
        self.xy_idx(p.x, p.y)
    }

    /// Inverse of `xy_idx`: the coordinate of a row-major index.
    pub fn idx_xy(&self, idx: usize) -> (p: (i32, i32))
        requires
            self.wf(),
            idx < self.area(),
        ensures
            self.in_bounds(p.0 as int, p.1 as int),
            self.spec_idx(p.0 as int, p.1 as int) == idx,
    {
        proof {
            self.lemma_idx_bounds(0, 0);
        }
        let w = self.width as usize;
        let x = idx % w;
        let y = idx / w;
        proof {
            lemma_fundamental_div_mod(idx as int, w as int);
            lemma_multiply_divide_lt(idx as int, w as int, self.height as int);
            assert(idx as int == (w as int) * (y as int) + (x as int));
            assert((w as int) * (y as int) == (y as int) * (w as int)) by (nonlinear_arith);
        }
        (x as i32, y as i32)
    }

    /// The position of a row-major index.
    pub fn idx_pos(&self, idx: usize) -> (p: Position)
        requires
            self.wf(),
            idx < self.area(),
        ensures
            self.pos_in_bounds(p),
            self.spec_pos_idx(p) == idx,
    {
        let (x, y) = self.idx_xy(idx);
        Position { x, y }
    }

    /// Whether a tile blocks line of sight.
    pub fn is_opaque(&self, idx: usize) -> (r: bool)
        requires
            self.wf(),
            idx < self.area(),
        ensures
            r == (self.tiles@[idx as int] == TileType::Wall),
    {
        self.tiles[idx] == TileType::Wall
    }

    /// The map's width and height.
    pub fn dimensions(&self) -> (d: (i32, i32))
        ensures
            d.0 == self.width,
            d.1 == self.height,
    {
        (self.width, self.height)
    }

    /// A fresh all-wall map: nothing revealed, visible, spawn-eligible or
    /// hazard-flagged, and every tile blocked (walls block movement).
    pub fn new(width: i32, height: i32) -> (m: GameMap)
        requires
            0 < width <= 4096,
            0 < height <= 4096,
        ensures
            m.wf(),
            m.width == width,
            m.height == height,
            forall|i: int|
                0 <= i < m.area() ==> #[trigger] m.tiles@[i] == TileType::Wall,
            forall|i: int| 0 <= i < m.area() ==> #[trigger] m.blocked@[i] == true,
            forall|i: int| 0 <= i < m.area() ==> #[trigger] m.revealed_tiles@[i] == false,
            forall|i: int| 0 <= i < m.area() ==> #[trigger] m.visible_tiles@[i] == false,
            forall|i: int| 0 <= i < m.area() ==> #[trigger] m.ok_to_spawn@[i] == false,
            forall|i: int| 0 <= i < m.area() ==> #[trigger] m.fire@[i] == false,
            forall|i: int| 0 <= i < m.area() ==> #[trigger] m.chill@[i] == false,
            m.rooms@.len() == 0,
    {
        proof {
            assert(0 < width * height <= 16777216) by (nonlinear_arith)
                requires
                    0 < width <= 4096,
                    0 < height <= 4096,
            ;
        }
        let n: usize = (width as usize) * (height as usize);
        GameMap {
            tiles: vec![TileType::Wall; n],
            rooms: Vec::new(),
            revealed_tiles: vec![false; n],
            visible_tiles: vec![false; n],
            blocked: vec![true; n],
            ok_to_spawn: vec![false; n],
            fire: vec![false; n],
            chill: vec![false; n],
            width,
            height,
        }
    }

    /// Sets one tile, keeping the blocked grid in step (walls block).
    pub fn set_tile(&mut self, x: i32, y: i32, t: TileType)
        requires
            old(self).wf(),
            old(self).in_bounds(x as int, y as int),
        ensures
            final(self).wf(),
            *final(self) == (GameMap {
                tiles: final(self).tiles,
                blocked: final(self).blocked,
                ..*old(self)
            }),
            final(self).tiles@ == old(self).tiles@.update(
                old(self).spec_idx(x as int, y as int),
                t,
            ),
            final(self).blocked@ == old(self).blocked@.update(
                old(self).spec_idx(x as int, y as int),
                t == TileType::Wall,
            ),
    {
        let idx = self.xy_idx(x, y);
        let is_wall = match t {
            TileType::Wall => true,
            TileType::Floor => false,
        };
        self.tiles[idx] = t;
        self.blocked[idx] = is_wall;
    }

    /// Carves a room's interior to floor, unblocking it and making it
    /// spawn-eligible; all other tiles keep their state.
    #[verifier::loop_isolation(false)]
    pub fn apply_room(&mut self, room: &Rectangle)
        requires
            old(self).wf(),
            0 <= room.x1 <= room.x2 < old(self).width,
            0 <= room.y1 <= room.y2 < old(self).height,
        ensures
            final(self).wf(),
            *final(self) == (GameMap {
                tiles: final(self).tiles,
                blocked: final(self).blocked,
                ok_to_spawn: final(self).ok_to_spawn,
                ..*old(self)
            }),
            forall|x: int, y: int|
                #![trigger old(self).spec_idx(x, y)]
                old(self).in_bounds(x, y) ==> {
                    let i = old(self).spec_idx(x, y);
                    if room_interior(*room, x, y) {
                        final(self).tiles@[i] == TileType::Floor && final(self).blocked@[i]
                            == false && final(self).ok_to_spawn@[i] == true
                    } else {
                        final(self).tiles@[i] == old(self).tiles@[i] && final(self).blocked@[i]
                            == old(self).blocked@[i] && final(self).ok_to_spawn@[i] == old(
                            self,
                        ).ok_to_spawn@[i]
                    }
                },
    {
        proof {
            lemma_row_idx_injective();
        }
        let ghost pre = *self;
        let mut x = room.x1 + 1;
        while x <= room.x2
            invariant
                self.wf(),
                self.width == pre.width,
                self.height == pre.height,
                self.rooms == pre.rooms,
                self.revealed_tiles == pre.revealed_tiles,
                self.visible_tiles == pre.visible_tiles,
                self.fire == pre.fire,
                self.chill == pre.chill,
                room.x1 + 1 <= x <= room.x2 + 1,
                forall|xx: int, yy: int|
                    #![trigger pre.spec_idx(xx, yy)]
                    pre.in_bounds(xx, yy) ==> {
                        let i = pre.spec_idx(xx, yy);
                        if room_interior(*room, xx, yy) && xx < x {
                            self.tiles@[i] == TileType::Floor && self.blocked@[i] == false
                                && self.ok_to_spawn@[i] == true
                        } else {
                            self.tiles@[i] == pre.tiles@[i] && self.blocked@[i] == pre.blocked@[i]
                                && self.ok_to_spawn@[i] == pre.ok_to_spawn@[i]
                        }
                    },
            decreases room.x2 + 1 - x,
        {
            let mut y = room.y1 + 1;
            while y <= room.y2
                invariant
                    self.wf(),
                    self.width == pre.width,
                    self.height == pre.height,
                    self.rooms == pre.rooms,
                    self.revealed_tiles == pre.revealed_tiles,
                    self.visible_tiles == pre.visible_tiles,
                    self.fire == pre.fire,
                    self.chill == pre.chill,
                    room.x1 + 1 <= x <= room.x2,
                    room.y1 + 1 <= y <= room.y2 + 1,
                    forall|xx: int, yy: int|
                        #![trigger pre.spec_idx(xx, yy)]
                        pre.in_bounds(xx, yy) ==> {
                            let i = pre.spec_idx(xx, yy);
                            if room_interior(*room, xx, yy) && (xx < x || (xx == x && yy < y)) {
                                self.tiles@[i] == TileType::Floor && self.blocked@[i] == false
                                    && self.ok_to_spawn@[i] == true
                            } else {
                                self.tiles@[i] == pre.tiles@[i] && self.blocked@[i]
                                    == pre.blocked@[i] && self.ok_to_spawn@[i]
                                    == pre.ok_to_spawn@[i]
                            }
                        },
                decreases room.y2 + 1 - y,
            {
                let idx = self.xy_idx(x, y);
                self.tiles[idx] = TileType::Floor;
                self.blocked[idx] = false;
                self.ok_to_spawn[idx] = true;
                proof {
                    assert forall|xx: int, yy: int|
                        pre.in_bounds(xx, yy) && (xx != x || yy != y) implies pre.spec_idx(
                        xx,
                        yy,
                    ) != pre.spec_idx(x as int, y as int) by {
                        if pre.spec_idx(xx, yy) == pre.spec_idx(x as int, y as int) {
                            pre.lemma_idx_injective(xx, yy, x as int, y as int);
                        }
                    }
                    assert forall|xx: int, yy: int| pre.in_bounds(xx, yy) implies 0
                        <= pre.spec_idx(xx, yy) < pre.area() by {
                        pre.lemma_idx_bounds(xx, yy);
                    }
                }
                y += 1;
            }
            x += 1;
        }
    }

    /// Carves a one-tile-high horizontal corridor between two columns.
    #[verifier::loop_isolation(false)]
    pub fn apply_horizontal_tunnel(&mut self, x1: i32, x2: i32, y: i32)
        requires
            old(self).wf(),
            0 <= x1 < old(self).width,
            0 <= x2 < old(self).width,
            0 <= y < old(self).height,
        ensures
            final(self).wf(),
            *final(self) == (GameMap {
                tiles: final(self).tiles,
                blocked: final(self).blocked,
                ok_to_spawn: final(self).ok_to_spawn,
                ..*old(self)
            }),
            forall|xx: int, yy: int|
                #![trigger old(self).spec_idx(xx, yy)]
                old(self).in_bounds(xx, yy) ==> {
                    let i = old(self).spec_idx(xx, yy);
                    if (if x1 <= x2 {
                        x1 <= xx <= x2
                    } else {
                        x2 <= xx <= x1
                    }) && yy == y {
                        final(self).tiles@[i] == TileType::Floor && final(self).blocked@[i]
                            == false && final(self).ok_to_spawn@[i] == true
                    } else {
                        final(self).tiles@[i] == old(self).tiles@[i] && final(self).blocked@[i]
                            == old(self).blocked@[i] && final(self).ok_to_spawn@[i] == old(
                            self,
                        ).ok_to_spawn@[i]
                    }
                },
    {
        proof {
            lemma_row_idx_injective();
        }
        let ghost pre = *self;
        let lo = if x1 <= x2 {
            x1
        } else {
            x2
        };
        let hi = if x1 <= x2 {
            x2
        } else {
            x1
        };
        let mut x = lo;
        while x <= hi
            invariant
                self.wf(),
                self.width == pre.width,
                self.height == pre.height,
                self.rooms == pre.rooms,
                self.revealed_tiles == pre.revealed_tiles,
                self.visible_tiles == pre.visible_tiles,
                self.fire == pre.fire,
                self.chill == pre.chill,
                lo <= x <= hi + 1,
                forall|xx: int, yy: int|
                    #![trigger pre.spec_idx(xx, yy)]
                    pre.in_bounds(xx, yy) ==> {
                        let i = pre.spec_idx(xx, yy);
                        if lo <= xx < x && yy == y {
                            self.tiles@[i] == TileType::Floor && self.blocked@[i] == false
                                && self.ok_to_spawn@[i] == true
                        } else {
                            self.tiles@[i] == pre.tiles@[i] && self.blocked@[i] == pre.blocked@[i]
                                && self.ok_to_spawn@[i] == pre.ok_to_spawn@[i]
                        }
                    },
            decreases hi + 1 - x,
        {
            let idx = self.xy_idx(x, y);
            self.tiles[idx] = TileType::Floor;
            self.blocked[idx] = false;
            self.ok_to_spawn[idx] = true;
            proof {
                assert forall|xx: int, yy: int|
                    pre.in_bounds(xx, yy) && (xx != x || yy != y) implies pre.spec_idx(xx, yy)
                    != pre.spec_idx(x as int, y as int) by {
                    if pre.spec_idx(xx, yy) == pre.spec_idx(x as int, y as int) {
                        pre.lemma_idx_injective(xx, yy, x as int, y as int);
                    }
                }
                assert forall|xx: int, yy: int| pre.in_bounds(xx, yy) implies 0 <= pre.spec_idx(
                    xx,
                    yy,
                ) < pre.area() by {
                    pre.lemma_idx_bounds(xx, yy);
                }
            }
            x += 1;
        }
    }

    /// Carves a one-tile-wide vertical corridor between two rows.
    #[verifier::loop_isolation(false)]
    pub fn apply_vertical_tunnel(&mut self, y1: i32, y2: i32, x: i32)
        requires
            old(self).wf(),
            0 <= y1 < old(self).height,
            0 <= y2 < old(self).height,
            0 <= x < old(self).width,
        ensures
            final(self).wf(),
            *final(self) == (GameMap {
                tiles: final(self).tiles,
                blocked: final(self).blocked,
                ok_to_spawn: final(self).ok_to_spawn,
                ..*old(self)
            }),
            forall|xx: int, yy: int|
                #![trigger old(self).spec_idx(xx, yy)]
                old(self).in_bounds(xx, yy) ==> {
                    let i = old(self).spec_idx(xx, yy);
                    if (if y1 <= y2 {
                        y1 <= yy <= y2
                    } else {
                        y2 <= yy <= y1
                    }) && xx == x {
                        final(self).tiles@[i] == TileType::Floor && final(self).blocked@[i]
                            == false && final(self).ok_to_spawn@[i] == true
                    } else {
                        final(self).tiles@[i] == old(self).tiles@[i] && final(self).blocked@[i]
                            == old(self).blocked@[i] && final(self).ok_to_spawn@[i] == old(
                            self,
                        ).ok_to_spawn@[i]
                    }
                },
    {
        proof {
            lemma_row_idx_injective();
        }
        let ghost pre = *self;
        let lo = if y1 <= y2 {
            y1
        } else {
            y2
        };
        let hi = if y1 <= y2 {
            y2
        } else {
            y1
        };
        let mut y = lo;
        while y <= hi
            invariant
                self.wf(),
                self.width == pre.width,
                self.height == pre.height,
                self.rooms == pre.rooms,
                self.revealed_tiles == pre.revealed_tiles,
                self.visible_tiles == pre.visible_tiles,
                self.fire == pre.fire,
                self.chill == pre.chill,
                lo <= y <= hi + 1,
                forall|xx: int, yy: int|
                    #![trigger pre.spec_idx(xx, yy)]
                    pre.in_bounds(xx, yy) ==> {
                        let i = pre.spec_idx(xx, yy);
                        if lo <= yy < y && xx == x {
                            self.tiles@[i] == TileType::Floor && self.blocked@[i] == false
                                && self.ok_to_spawn@[i] == true
                        } else {
                            self.tiles@[i] == pre.tiles@[i] && self.blocked@[i] == pre.blocked@[i]
                                && self.ok_to_spawn@[i] == pre.ok_to_spawn@[i]
                        }
                    },
            decreases hi + 1 - y,
        {
            let idx = self.xy_idx(x, y);
            self.tiles[idx] = TileType::Floor;
            self.blocked[idx] = false;
            self.ok_to_spawn[idx] = true;
            proof {
                assert forall|xx: int, yy: int|
                    pre.in_bounds(xx, yy) && (xx != x || yy != y) implies pre.spec_idx(xx, yy)
                    != pre.spec_idx(x as int, y as int) by {
                    if pre.spec_idx(xx, yy) == pre.spec_idx(x as int, y as int) {
                        pre.lemma_idx_injective(xx, yy, x as int, y as int);
                    }
                }
                assert forall|xx: int, yy: int| pre.in_bounds(xx, yy) implies 0 <= pre.spec_idx(
                    xx,
                    yy,
                ) < pre.area() by {
                    pre.lemma_idx_bounds(xx, yy);
                }
            }
            y += 1;
        }
    }

    /// All in-bounds tiles at exactly Chebyshev distance `d` from `pt`: the
    /// square ring (L-infinity circle) used by stand-off positioning.
    #[verifier::loop_isolation(false)]
    pub fn get_l_infinity_circle_around(&self, pt: Position, d: i32) -> (circle: Vec<Position>)
        requires
            self.wf(),
            self.pos_in_bounds(pt),
            0 <= d <= 100000,
        ensures
            forall|j: int|
                0 <= j < circle@.len() ==> self.pos_in_bounds(#[trigger] circle@[j])
                    && chebyshev_dist(circle@[j], pt) == d,
            forall|p: Position|
                self.pos_in_bounds(p) && chebyshev_dist(p, pt) == d ==> circle@.contains(p),
            forall|i: int, j: int|
                0 <= i < j < circle@.len() ==> crate::components::pos_lex_lt(
                    #[trigger] circle@[i],
                    #[trigger] circle@[j],
                ),
    {
        let mut circle: Vec<Position> = Vec::new();
        let x_lo: i32 = if pt.x >= d {
            pt.x - d
        } else {
            0
        };
        let x_hi: i32 = if pt.x + d < self.width {
            pt.x + d
        } else {
            self.width - 1
        };
        let y_lo: i32 = if pt.y >= d {
            pt.y - d
        } else {
            0
        };
        let y_hi: i32 = if pt.y + d < self.height {
            pt.y + d
        } else {
            self.height - 1
        };
        let mut x = x_lo;
        while x <= x_hi
            invariant
                x_lo <= x <= x_hi + 1,
                forall|j: int|
                    0 <= j < circle@.len() ==> self.pos_in_bounds(#[trigger] circle@[j])
                        && chebyshev_dist(circle@[j], pt) == d,
                forall|p: Position|
                    self.pos_in_bounds(p) && chebyshev_dist(p, pt) == d && p.x < x
                        ==> circle@.contains(p),
                forall|i: int, j: int|
                    0 <= i < j < circle@.len() ==> crate::components::pos_lex_lt(
                        #[trigger] circle@[i],
                        #[trigger] circle@[j],
                    ),
                forall|j: int| 0 <= j < circle@.len() ==> (#[trigger] circle@[j]).x < x,
            decreases x_hi + 1 - x,
        {
            let mut y = y_lo;
            while y <= y_hi
                invariant
                    x_lo <= x <= x_hi,
                    y_lo <= y <= y_hi + 1,
                    forall|j: int|
                        0 <= j < circle@.len() ==> self.pos_in_bounds(#[trigger] circle@[j])
                            && chebyshev_dist(circle@[j], pt) == d,
                    forall|p: Position|
                        self.pos_in_bounds(p) && chebyshev_dist(p, pt) == d && (p.x < x || (p.x
                            == x && p.y < y)) ==> circle@.contains(p),
                    forall|i: int, j: int|
                        0 <= i < j < circle@.len() ==> crate::components::pos_lex_lt(
                            #[trigger] circle@[i],
                            #[trigger] circle@[j],
                        ),
                    forall|j: int|
                        0 <= j < circle@.len() ==> (#[trigger] circle@[j]).x < x || ((
                        circle@[j]).x == x && (circle@[j]).y < y),
                decreases y_hi + 1 - y,
            {
                let p = Position { x, y };
                let dist = crate::components::l_infinity_dist(p, pt);
                if dist == d {
                    circle.push(p);
                }
                proof {
                    assert forall|q: Position|
                        self.pos_in_bounds(q) && chebyshev_dist(q, pt) == d && (q.x < x || (q.x
                            == x && q.y <= y)) implies circle@.contains(q) by {
                        if q.x == x && q.y == y {
                            assert(q == (Position { x, y }));
                            assert(circle@[circle@.len() - 1] == q);
                        }
                    }
                }
                y += 1;
            }
            x += 1;
        }
        circle
    }

    /// Draws up to `tries` random points, returning the first unblocked one.
    #[verifier::loop_isolation(false)]
    pub fn random_unblocked_point(&self, tries: i32, rng: &mut rltk::RandomNumberGenerator) -> (r:
        Option<(i32, i32)>)
        requires
            self.wf(),
        ensures
            r matches Some(p) ==> self.in_bounds(p.0 as int, p.1 as int) && !self.blocked@[
                self.spec_idx(p.0 as int, p.1 as int)],
            (tries >= 1 && (forall|i: int|
                0 <= i < self.area() ==> !(#[trigger] self.blocked@[i]))) ==> r is Some,
    {
        let mut k: i32 = 0;
        while k < tries
            invariant
                0 <= k,
                k == 0 || exists|i: int| 0 <= i < self.area() && #[trigger] self.blocked@[i],
            decreases tries - k,
        {
            let x = rng_range(rng, 0, self.width);
            let y = rng_range(rng, 0, self.height);
            let idx = self.xy_idx(x, y);
            if !self.blocked[idx] {
                return Some((x, y));
            }
            proof {
                assert(self.blocked@[idx as int]);
            }
            k += 1;
        }
        None
    }

    /// The room-and-corridor dungeon generator: places up to a fixed number
    /// of non-overlapping random rooms on an all-wall map and connects each
    /// new room to the previous one with an L-shaped corridor.
    #[verifier::loop_isolation(false)]
    pub fn new_rooms_and_corridors(rng: &mut rltk::RandomNumberGenerator) -> (m: GameMap)
        ensures
            m.wf(),
            m.width == MAP_WIDTH,
            m.height == MAP_HEIGHT,
            m.rooms@.len() <= MAX_ROOMS,
            forall|i: int| 0 <= i < m.rooms@.len() ==> room_in_map(m, #[trigger] m.rooms@[i]),
            forall|i: int, j: int|
                #![trigger m.rooms@[i], m.rooms@[j]]
                0 <= i < j < m.rooms@.len() ==> !m.rooms@[i].spec_intersect(m.rooms@[j]),
            forall|i: int|
                0 <= i < m.area() ==> !(#[trigger] m.fire@[i]) && !m.chill@[i]
                    && !m.revealed_tiles@[i] && !m.visible_tiles@[i],
    {
        let mut map = GameMap::new(MAP_WIDTH, MAP_HEIGHT);
        let ghost mfresh = map;
        let mut counter: i32 = 0;
        while counter < MAX_ROOMS
            invariant
                map.wf(),
                map.width == MAP_WIDTH,
                map.height == MAP_HEIGHT,
                0 <= counter <= MAX_ROOMS,
                map.rooms@.len() <= counter,
                map.fire == mfresh.fire,
                map.chill == mfresh.chill,
                map.revealed_tiles == mfresh.revealed_tiles,
                map.visible_tiles == mfresh.visible_tiles,
                forall|i: int|
                    0 <= i < map.rooms@.len() ==> room_in_map(map, #[trigger] map.rooms@[i]),
                forall|i: int, j: int|
                    #![trigger map.rooms@[i], map.rooms@[j]]
                    0 <= i < j < map.rooms@.len() ==> !map.rooms@[i].spec_intersect(map.rooms@[j]),
            decreases MAX_ROOMS - counter,
        {
            let w = rng_range(rng, MIN_ROOM_SIZE, MAX_ROOM_SIZE);
            let h = rng_range(rng, MIN_ROOM_SIZE, MAX_ROOM_SIZE);
            let x = rng_roll_dice(rng, 1, MAP_WIDTH - w - 1) - 1;
            let y = rng_roll_dice(rng, 1, MAP_HEIGHT - h - 1) - 1;
            let new_room = Rectangle::new(x, y, w, h);
            let mut ok_to_place = true;
            let mut r: usize = 0;
            while r < map.rooms.len()
                invariant
                    r <= map.rooms@.len(),
                    ok_to_place <==> forall|j: int|
                        0 <= j < r ==> !new_room.spec_intersect(#[trigger] map.rooms@[j]),
                decreases map.rooms@.len() - r,
            {
                if new_room.intersect(&map.rooms[r]) {
                    ok_to_place = false;
                }
                r += 1;
            }
            if ok_to_place {
                map.apply_room(&new_room);
                if map.rooms.len() > 0 {
                    let (cxnew, cynew) = new_room.center();
                    let prev_room = map.rooms[map.rooms.len() - 1];
                    let (cxprev, cyprev) = prev_room.center();
                    if rng_range(rng, 0, 2) == 1 {
                        map.apply_horizontal_tunnel(cxprev, cxnew, cyprev);
                        map.apply_vertical_tunnel(cyprev, cynew, cxnew);
                    } else {
                        map.apply_vertical_tunnel(cyprev, cynew, cxprev);
                        map.apply_horizontal_tunnel(cxprev, cxnew, cynew);
                    }
                }
                map.rooms.push(new_room);
            }
            counter += 1;
        }
        proof {
            assert forall|i: int|
                0 <= i < map.area() implies !(#[trigger] map.fire@[i]) && !map.chill@[i]
                    && !map.revealed_tiles@[i] && !map.visible_tiles@[i] by {
                assert(map.fire@ == mfresh.fire@);
                assert(map.chill@ == mfresh.chill@);
                assert(map.revealed_tiles@ == mfresh.revealed_tiles@);
                assert(map.visible_tiles@ == mfresh.visible_tiles@);
            }
        }
        map
    }
}

} // verus!
