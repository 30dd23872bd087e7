//! The dungeon generator: rooms that keep apart from one another, each
//! joined to the one before it by a corridor.

use vstd::prelude::*;
use crate::map::{GameMap, TileType};
use crate::rect::{lemma_middle_is_inside, Rect};

verus! {

/// Width of the dungeon, in cells.
pub const MAP_WIDTH: i32 = 80;

/// Height of the dungeon, in cells.
pub const MAP_HEIGHT: i32 = 43;

/// Number of cells of the dungeon.
pub const MAP_COUNT: i32 = 3440;

/// How many rooms the generator tries to place.
pub const MAX_ROOMS: usize = 30;

/// Smallest side of a room.
pub const MIN_SIZE: i32 = 6;

/// A room's side stays below this.
pub const MAX_SIZE: i32 = 10;

/// `rltk::RandomNumberGenerator`, the source of the generator's random
/// numbers. Nothing of its state is known.
#[verifier::external_type_specification]
#[verifier::external_body]
pub struct ExRandomNumberGenerator(rltk::RandomNumberGenerator);

/// `rltk::RandomNumberGenerator::new`: a generator seeded by the machine.
/// Nothing is known of the numbers it will give.
#[verifier::external_body]
fn new_rng() -> rltk::RandomNumberGenerator {
    rltk::RandomNumberGenerator::new()
}

/// `rltk::RandomNumberGenerator::range`: some number from `min` up to, and
/// not including, `max`. The outside function panics on an empty range.
#[verifier::external_body]
fn rng_range(rng: &mut rltk::RandomNumberGenerator, min: i32, max: i32) -> (r: i32)
    requires
        min < max,
    ensures
        min <= r < max,
{
    rng.range(min, max)
}

/// `rltk::RandomNumberGenerator::roll_dice` for one die: some number from 1
/// to `die_type`. The outside function panics on a die without faces.
#[verifier::external_body]
fn rng_roll_die(rng: &mut rltk::RandomNumberGenerator, die_type: i32) -> (r: i32)
    requires
        1 <= die_type < i32::MAX,
    ensures
        1 <= r <= die_type,
{
    rng.roll_dice(1, die_type)
}

/// Whether `v` lies between `a` and `b`, whichever of these is smaller.
pub open spec fn between(a: int, b: int, v: int) -> bool {
    (a <= v <= b) || (b <= v <= a)
}

/// The index of cell `(x, y)` on a map `w` cells wide: rows follow one
/// another. A cell outside the map has an index too, and where its column
/// lies beyond the last one, it is the index of a cell in a later row.
pub open spec fn lands(x: int, y: int, w: int) -> int {
    y * w + x
}

/// Whether a tunnel along row `row`, from column `xa` to column `xb`, carves
/// cell `(x, y)` of a map `w` cells wide. The tunnel goes by tile index: it
/// carves the tile of every column of its stretch, also where the column
/// lies beyond the edge of the map and the index is that of a cell in
/// another row. The tile with index zero is never carved.
pub open spec fn on_row(x: int, y: int, w: int, xa: int, xb: int, row: int) -> bool {
    between(lands(xa, row, w), lands(xb, row, w), lands(x, y, w)) && lands(x, y, w) != 0
}

/// Whether tile `k` is the tile of column `col` in one of the rows from
/// `lo` to `hi`, on a map `w` cells wide.
pub open spec fn struck(k: int, w: int, col: int, lo: int, hi: int) -> bool {
    exists|r: int| lo <= r <= hi && #[trigger] lands(col, r, w) == k
}

/// Whether a tunnel along column `col`, from row `ya` to row `yb`, carves
/// cell `(x, y)` of a map `w` cells wide. The tunnel goes by tile index, as
/// the one along a row does.
pub open spec fn on_column(x: int, y: int, w: int, ya: int, yb: int, col: int) -> bool {
    lands(x, y, w) != 0 && struck(
        lands(x, y, w),
        w,
        col,
        if ya <= yb {
            ya
        } else {
            yb
        },
        if ya <= yb {
            yb
        } else {
            ya
        },
    )
}

/// Whether the corridor from `from` to `to` carves cell `(x, y)` of a map
/// `w` cells wide: one tunnel along a row and one along a column, the row
/// first where `horizontal_first` holds.
pub open spec fn on_corridor(
    x: int,
    y: int,
    w: int,
    from: (int, int),
    to: (int, int),
    horizontal_first: bool,
) -> bool {
    if horizontal_first {
        on_row(x, y, w, from.0, to.0, from.1) || on_column(x, y, w, from.1, to.1, to.0)
    } else {
        on_column(x, y, w, from.1, to.1, from.0) || on_row(x, y, w, from.0, to.0, to.1)
    }
}

/// For a tunnel that stays inside the map, the cells it carves are the
/// cells of its stretch: those of row `row` between the columns `xa` and
/// `xb`, or those of column `col` between the rows `ya` and `yb`.
pub proof fn lemma_tunnels_in_board(x: int, y: int, w: int, h: int, a: int, b: int, fixed: int)
    requires
        0 <= x < w,
        0 <= y < h,
        !(x == 0 && y == 0),
    ensures
        0 <= a < w && 0 <= b < w ==> (on_row(x, y, w, a, b, fixed) <==> y == fixed && between(a, b, x)),
        0 <= fixed < w ==> (on_column(x, y, w, a, b, fixed) <==> x == fixed && between(a, b, y)),
{
    crate::map::lemma_index_fits(x, y, w, h);
    if 0 <= a < w && 0 <= b < w && on_row(x, y, w, a, b, fixed) {
        let k = lands(x, y, w);
        let c = k - fixed * w;
        assert(between(a, b, c));
        vstd::arithmetic::div_mod::lemma_fundamental_div_mod_converse(k, w, fixed, c);
    }
    if 0 <= fixed < w {
        let lo = if a <= b { a } else { b };
        let hi = if a <= b { b } else { a };
        if on_column(x, y, w, a, b, fixed) {
            let k = lands(x, y, w);
            let r = choose|r: int| lo <= r <= hi && #[trigger] lands(fixed, r, w) == k;
            vstd::arithmetic::div_mod::lemma_fundamental_div_mod_converse(k, w, r, fixed);
        }
        if x == fixed && between(a, b, y) {
            assert(lands(fixed, y, w) == lands(x, y, w));
            assert(struck(lands(x, y, w), w, fixed, lo, hi));
        }
    }
}

/// Whether two cells share an edge.
pub open spec fn beside(a: (int, int), b: (int, int)) -> bool {
    (a.0 == b.0 && (a.1 - b.1 == 1 || b.1 - a.1 == 1)) || (a.1 == b.1 && (a.0 - b.0 == 1 || b.0 - a.0
        == 1))
}

impl GameMap {
    /// Whether `p` is a walk over floor: every cell is a floor of the map,
    /// and each shares an edge with the next.
    pub open spec fn walk(&self, p: Seq<(int, int)>) -> bool {
        &&& p.len() >= 1
        &&& forall|k: int| 0 <= k < p.len() ==> self.is_floor(#[trigger] p[k].0, p[k].1)
        &&& forall|k: int| 0 <= k < p.len() - 1 ==> beside(#[trigger] p[k], p[k + 1])
    }

    /// Whether one can walk over floor from `a` to `b`.
    pub open spec fn linked(&self, a: (int, int), b: (int, int)) -> bool {
        exists|p: Seq<(int, int)>| #[trigger] self.walk(p) && p[0] == a && p.last() == b
    }

    /// No two rooms overlap.
    pub open spec fn rooms_apart(&self) -> bool {
        forall|i: int, j: int|
            0 <= i < j < self.rooms.len() ==> !(#[trigger] self.rooms[i]).overlaps(#[trigger] self.rooms[j])
    }

    /// Every room lies inside the map and is at least two cells wide and
    /// high.
    pub open spec fn rooms_inside(&self) -> bool {
        forall|i: int|
            0 <= i < self.rooms.len() ==> {
                let r = #[trigger] self.rooms[i];
                &&& 0 <= r.x1
                &&& r.x1 + 2 <= r.x2 < self.width
                &&& 0 <= r.y1
                &&& r.y1 + 2 <= r.y2 < self.height
            }
    }

    /// Every cell of every room is a floor.
    pub open spec fn rooms_carved(&self) -> bool {
        forall|i: int, x: int, y: int|
            0 <= i < self.rooms.len() && (#[trigger] self.rooms[i]).holds(x, y) ==> #[trigger] self.is_floor(
                x,
                y,
            )
    }

    /// From the middle of every room one can walk to the middle of the
    /// first.
    pub open spec fn rooms_linked(&self) -> bool {
        forall|i: int|
            0 <= i < self.rooms.len() ==> self.linked(
                (#[trigger] self.rooms[i]).middle(),
                self.rooms[0].middle(),
            )
    }

    /// Whether the corridor from the middle of room `i - 1` to the middle
    /// of room `i` carves cell `(x, y)`, where `flips[i]` says which of its
    /// tunnels comes first.
    pub open spec fn joined(&self, i: int, x: int, y: int, flips: Seq<bool>) -> bool {
        &&& 1 <= i < self.rooms.len()
        &&& on_corridor(
            x,
            y,
            self.width as int,
            self.rooms[i - 1].middle(),
            self.rooms[i].middle(),
            flips[i],
        )
    }

    /// Whether `(x, y)` is a cell of a room, or of the corridor from a room
    /// to the next.
    pub open spec fn dug(&self, x: int, y: int, flips: Seq<bool>) -> bool {
        exists|i: int|
            #![trigger self.rooms[i]]
            0 <= i < self.rooms.len() && (self.rooms[i].holds(x, y) || self.joined(i, x, y, flips))
    }

    /// Whether the floor of the map is exactly its rooms and one corridor
    /// from each room to the next, where `flips` says of each corridor
    /// which of its tunnels comes first. Everything else is wall.
    pub open spec fn floors_are(&self, flips: Seq<bool>) -> bool {
        &&& flips.len() == self.rooms.len()
        &&& forall|x: int, y: int|
            self.in_bounds(x, y) ==> (#[trigger] self.is_floor(x, y) <==> self.dug(x, y, flips))
    }

    /// What holds of every map that the generator builds.
    pub open spec fn generated(&self) -> bool {
        &&& self.wf()
        &&& self.rooms_apart()
        &&& self.rooms_inside()
        &&& self.rooms_carved()
        &&& self.rooms_linked()
    }

    /// Whether `room` overlaps none of the rooms of the map.
    pub open spec fn room_is_free(&self, room: Rect) -> bool {
        forall|i: int| 0 <= i < self.rooms.len() ==> !room.overlaps(#[trigger] self.rooms[i])
    }
}

impl GameMap {
    /// Carves a tunnel along row `y`, from column `x1` to column `x2`. Each
    /// tile is found by its index, and carved where the index is one of
    /// the map and not zero.
    pub fn apply_horizontal_tunnel(&mut self, x1: i32, x2: i32, y: i32)
        requires
            old(self).wf(),
        ensures
            final(self).wf(),
            *final(self) == (GameMap { tiles: final(self).tiles, ..*old(self) }),
            old(self).carved(
                *final(self),
                |a: int, b: int| on_row(a, b, old(self).width as int, x1 as int, x2 as int, y as int),
            ),
    {
        let w: i64 = self.width as i64;
        let len: i64 = self.tiles.len() as i64;
        assert(-0x8000_0000 * 0x8000_0000 <= y * w <= 0x8000_0000 * 0x8000_0000) by (nonlinear_arith)
            requires
                -0x8000_0000 <= y <= 0x8000_0000,
                1 <= w <= 0x8000_0000,
        ;
        let lo: i64 = y as i64 * w + (if x1 < x2 { x1 } else { x2 }) as i64;
        let hi: i64 = y as i64 * w + (if x1 < x2 { x2 } else { x1 }) as i64;
        let first: i64 = if lo < 1 { 1 } else { lo };
        let last: i64 = if hi > len - 1 { len - 1 } else { hi };
        let mut i: i64 = first;
        while i <= last
            invariant
                self.wf(),
                len == self.tiles.len(),
                len == old(self).tiles.len(),
                lo == lands(if x1 < x2 { x1 as int } else { x2 as int }, y as int, self.width as int),
                hi == lands(if x1 < x2 { x2 as int } else { x1 as int }, y as int, self.width as int),
                first == if lo < 1 { 1 } else { lo as int },
                last == if hi > len - 1 { len - 1 } else { hi as int },
                first <= i,
                i <= last + 1 || i == first,
                *self == (GameMap { tiles: self.tiles, ..*old(self) }),
                forall|k: int|
                    0 <= k < len ==> #[trigger] self.tiles[k] == if first <= k < i {
                        TileType::Floor
                    } else {
                        old(self).tiles[k]
                    },
            decreases last + 1 - i,
        {
            self.tiles[i as usize] = TileType::Floor;
            i = i + 1;
        }
        proof {
            assert forall|a: int, b: int| old(self).in_bounds(a, b) implies #[trigger] self.tile_at(
                a,
                b,
            ) == if on_row(a, b, old(self).width as int, x1 as int, x2 as int, y as int) {
                TileType::Floor
            } else {
                old(self).tile_at(a, b)
            } by {
                crate::map::lemma_index_fits(a, b, self.width as int, self.height as int);
                let k = lands(a, b, self.width as int);
                assert(self.tile_at(a, b) == self.tiles[k]);
                assert(old(self).tile_at(a, b) == old(self).tiles[k]);
                assert(on_row(a, b, old(self).width as int, x1 as int, x2 as int, y as int) == (lo <= k
                    <= hi && k != 0));
            }
        }
    }

    /// Carves a tunnel along column `x`, from row `y1` to row `y2`. Each tile
    /// is found by its index, and carved where the index is one of the map
    /// and not zero.
    pub fn apply_vertical_tunnel(&mut self, y1: i32, y2: i32, x: i32)
        requires
            old(self).wf(),
        ensures
            final(self).wf(),
            *final(self) == (GameMap { tiles: final(self).tiles, ..*old(self) }),
            old(self).carved(
                *final(self),
                |a: int, b: int| on_column(a, b, old(self).width as int, y1 as int, y2 as int, x as int),
            ),
    {
        let w: i64 = self.width as i64;
        let len: i64 = self.tiles.len() as i64;
        let col: i64 = x as i64;
        let lo: i64 = (if y1 < y2 { y1 } else { y2 }) as i64;
        let hi: i64 = (if y1 < y2 { y2 } else { y1 }) as i64;
        // No row before `below` and none after `above` has a tile of the map in this column.
        let below: i64 = if col <= 0 { (-col) / w } else { -(col / w) - 1 };
        let above: i64 = if len - col > 0 { (len - col) / w } else { -((col - len) / w) };
        let first: i64 = if lo < below { below } else { lo };
        let last: i64 = if hi > above { above } else { hi };
        let mut r: i64 = first;
        while r <= last
            invariant
                self.wf(),
                len == self.tiles.len(),
                len == old(self).tiles.len(),
                w == self.width,
                col == x,
                below == first_row_of(col as int, w as int),
                above == last_row_of(col as int, w as int, len as int),
                lo == if y1 < y2 { y1 as int } else { y2 as int },
                hi == if y1 < y2 { y2 as int } else { y1 as int },
                first == if lo < below { below as int } else { lo as int },
                last == if hi > above { above as int } else { hi as int },
                -0x8000_0001 <= first,
                last <= 0xffff_ffff,
                first <= r,
                r <= last + 1 || r == first,
                *self == (GameMap { tiles: self.tiles, ..*old(self) }),
                forall|k: int|
                    0 <= k < len ==> #[trigger] self.tiles[k] == if k != 0 && struck(
                        k,
                        w as int,
                        col as int,
                        first as int,
                        r - 1,
                    ) {
                        TileType::Floor
                    } else {
                        old(self).tiles[k]
                    },
            decreases last + 1 - r,
        {
            assert(-0x8000_0001 * 0x7fff_ffff <= r * w <= 0xffff_ffff * 0x7fff_ffff) by (nonlinear_arith)
                requires
                    -0x8000_0001 <= r <= 0xffff_ffff,
                    1 <= w <= 0x7fff_ffff,
            ;
            let idx: i64 = r * w + col;
            let ghost before = *self;
            if 0 < idx && idx < len {
                self.tiles[idx as usize] = TileType::Floor;
            }
            proof {
                assert(lands(col as int, r as int, w as int) == idx);
                assert forall|k: int| 0 <= k < len implies #[trigger] self.tiles[k] == if k != 0 && struck(
                    k,
                    w as int,
                    col as int,
                    first as int,
                    r as int,
                ) {
                    TileType::Floor
                } else {
                    old(self).tiles[k]
                } by {
                    if k == idx {
                        assert(struck(k, w as int, col as int, first as int, r as int));
                    } else {
                        assert(self.tiles[k] == before.tiles[k]);
                        if struck(k, w as int, col as int, first as int, r as int) {
                            let q = choose|q: int| first <= q <= r && #[trigger] lands(col as int, q, w as int) == k;
                            assert(q <= r - 1);
                            assert(struck(k, w as int, col as int, first as int, r - 1));
                        }
                        if struck(k, w as int, col as int, first as int, r - 1) {
                            let q = choose|q: int|
                                first <= q <= r - 1 && #[trigger] lands(col as int, q, w as int) == k;
                            assert(first <= q <= r && lands(col as int, q, w as int) == k);
                        }
                    }
                }
            }
            r = r + 1;
        }
        proof {
            let wi = self.width as int;
            assert forall|a: int, b: int| old(self).in_bounds(a, b) implies #[trigger] self.tile_at(
                a,
                b,
            ) == if on_column(a, b, wi, y1 as int, y2 as int, x as int) {
                TileType::Floor
            } else {
                old(self).tile_at(a, b)
            } by {
                crate::map::lemma_index_fits(a, b, wi, self.height as int);
                let k = lands(a, b, wi);
                assert(self.tile_at(a, b) == self.tiles[k]);
                assert(old(self).tile_at(a, b) == old(self).tiles[k]);
                if k != 0 {
                    if struck(k, wi, x as int, lo as int, hi as int) {
                        let q = choose|q: int| lo <= q <= hi && #[trigger] lands(x as int, q, wi) == k;
                        lemma_row_of_tile(x as int, q, wi, len as int);
                        assert(first <= q <= last && lands(x as int, q, wi) == k);
                        assert(struck(k, wi, x as int, first as int, last as int));
                    }
                    if first <= last {
                        assert(r == last + 1);
                        if struck(k, wi, x as int, first as int, last as int) {
                            let q = choose|q: int| first <= q <= last && #[trigger] lands(x as int, q, wi) == k;
                            assert(lo <= q <= hi && lands(x as int, q, wi) == k);
                        }
                    } else {
                        if struck(k, wi, x as int, first as int, r - 1) {
                            let q = choose|q: int| first <= q <= r - 1 && #[trigger] lands(x as int, q, wi) == k;
                        }
                    }
                }
            }
        }
    }

    /// Carves the corridor from `from` to `to`, along the row first where
    /// `horizontal_first` holds, along the column first where it does not.
    pub fn apply_corridor(&mut self, from: (i32, i32), to: (i32, i32), horizontal_first: bool)
        requires
            old(self).wf(),
        ensures
            final(self).wf(),
            *final(self) == (GameMap { tiles: final(self).tiles, ..*old(self) }),
            old(self).carved(
                *final(self),
                |a: int, b: int|
                    on_corridor(
                        a,
                        b,
                        old(self).width as int,
                        (from.0 as int, from.1 as int),
                        (to.0 as int, to.1 as int),
                        horizontal_first,
                    ),
            ),
    {
        let ghost f = (from.0 as int, from.1 as int);
        let ghost t = (to.0 as int, to.1 as int);
        if horizontal_first {
            self.apply_horizontal_tunnel(from.0, to.0, from.1);
            let ghost mid = *self;
            self.apply_vertical_tunnel(from.1, to.1, to.0);
            assert forall|a: int, b: int| old(self).in_bounds(a, b) implies #[trigger] self.tile_at(
                a,
                b,
            ) == if on_corridor(a, b, self.width as int, f, t, horizontal_first) {
                TileType::Floor
            } else {
                old(self).tile_at(a, b)
            } by {
                let u = mid.tile_at(a, b);
            }
        } else {
            self.apply_vertical_tunnel(from.1, to.1, from.0);
            let ghost mid = *self;
            self.apply_horizontal_tunnel(from.0, to.0, to.1);
            assert forall|a: int, b: int| old(self).in_bounds(a, b) implies #[trigger] self.tile_at(
                a,
                b,
            ) == if on_corridor(a, b, self.width as int, f, t, horizontal_first) {
                TileType::Floor
            } else {
                old(self).tile_at(a, b)
            } by {
                let u = mid.tile_at(a, b);
            }
        }
    }

    /// Whether `room` overlaps none of the rooms of the map.
    pub fn room_fits(&self, room: &Rect) -> (ok: bool)
        ensures
            ok == self.room_is_free(*room),
    {
        let mut i: usize = 0;
        while i < self.rooms.len()
            invariant
                i <= self.rooms.len(),
                forall|k: int| 0 <= k < i ==> !room.overlaps(#[trigger] self.rooms[k]),
            decreases self.rooms.len() - i,
        {
            if room.intersect(&self.rooms[i]) {
                return false;
            }
            i += 1;
        }
        true
    }
}

impl GameMap {
    /// Whether the sides of every room are at least `min_size` and below
    /// `max_size`.
    pub open spec fn rooms_sized(&self, min_size: int, max_size: int) -> bool {
        forall|i: int|
            0 <= i < self.rooms.len() ==> {
                let r = #[trigger] self.rooms[i];
                &&& min_size <= r.x2 - r.x1 < max_size
                &&& min_size <= r.y2 - r.y1 < max_size
            }
    }

    /// Whether every room keeps off the last column and the last row of the
    /// map, as it keeps off the first by not holding its own first column
    /// and row.
    pub open spec fn rooms_off_rim(&self) -> bool {
        forall|i: int|
            0 <= i < self.rooms.len() ==> {
                let r = #[trigger] self.rooms[i];
                &&& r.x2 <= self.width - 2
                &&& r.y2 <= self.height - 2
            }
    }

    /// Whether `after` is `self` with `room` added: the room's floor is
    /// carved, and so is a corridor from the middle of the room added last,
    /// where there is one, to the middle of `room`.
    pub open spec fn room_added(&self, after: GameMap, room: Rect, horizontal_first: bool) -> bool {
        &&& after == (GameMap { tiles: after.tiles, rooms: after.rooms, ..*self })
        &&& after.rooms@ == self.rooms@.push(room)
        &&& self.carved(
            after,
            |a: int, b: int|
                room.holds(a, b) || (self.rooms.len() > 0 && on_corridor(
                    a,
                    b,
                    self.width as int,
                    self.rooms@.last().middle(),
                    room.middle(),
                    horizontal_first,
                )),
        )
    }

    /// Adds `room` where it overlaps no room of the map, and says whether
    /// it did.
    pub fn add_room(&mut self, room: Rect, horizontal_first: bool) -> (accepted: bool)
        requires
            old(self).wf(),
            0 <= room.x1,
            room.x2 < old(self).width,
            0 <= room.y1,
            room.y2 < old(self).height,
        ensures
            final(self).wf(),
            accepted == old(self).room_is_free(room),
            !accepted ==> *final(self) == *old(self),
            accepted ==> old(self).room_added(*final(self), room, horizontal_first),
            accepted && old(self).generated() && room.x1 + 2 <= room.x2 && room.y1 + 2 <= room.y2
                ==> final(self).generated(),
    {
        if !self.room_fits(&room) {
            return false;
        }
        self.apply_room_to_map(&room);
        let ghost roomy = *self;
        if self.rooms.len() > 0 {
            let to: (i32, i32) = room.center();
            let from: (i32, i32) = self.rooms[self.rooms.len() - 1].center();
            assert((from.0 as int, from.1 as int) == old(self).rooms@.last().middle());
            assert((to.0 as int, to.1 as int) == room.middle());
            self.apply_corridor(from, to, horizontal_first);
        }
        let ghost joined = *self;
        self.rooms.push(room);
        proof {
            assert forall|a: int, b: int| old(self).in_bounds(a, b) implies #[trigger] self.tile_at(
                a,
                b,
            ) == if room.holds(a, b) || (old(self).rooms.len() > 0 && on_corridor(
                a,
                b,
                old(self).width as int,
                old(self).rooms@.last().middle(),
                room.middle(),
                horizontal_first,
            )) {
                TileType::Floor
            } else {
                old(self).tile_at(a, b)
            } by {
                let u = roomy.tile_at(a, b);
                let v = joined.tile_at(a, b);
            }
            if old(self).generated() && room.x1 + 2 <= room.x2 && room.y1 + 2 <= room.y2 {
                lemma_room_added(*old(self), *self, room, horizontal_first);
            }
        }
        true
    }

    /// A map of the given size with up to `max_rooms` rooms, placed at
    /// random: each candidate that overlaps no room placed before is
    /// carved and joined to the room placed before it.
    pub fn generate(width: i32, height: i32, max_rooms: usize, min_size: i32, max_size: i32) -> (map:
        GameMap)
        requires
            2 <= min_size < max_size,
            max_size < width,
            max_size < height,
            width * height <= i32::MAX,
        ensures
            map.generated(),
            map.width == width,
            map.height == height,
            map.rooms.len() <= max_rooms,
            max_rooms >= 1 ==> map.rooms.len() >= 1,
            map.rooms_sized(min_size as int, max_size as int),
            map.rooms_off_rim(),
            exists|flips: Seq<bool>| map.floors_are(flips),
            forall|i: int| 0 <= i < map.tiles.len() ==> !map.revealed_tiles[i],
            forall|i: int| 0 <= i < map.tiles.len() ==> !map.visible_tiles[i],
            forall|i: int| 0 <= i < map.tiles.len() ==> !map.blocked[i],
            forall|i: int| 0 <= i < map.tiles.len() ==> map.tile_content[i]@.len() == 0,
    {
        let mut map: GameMap = GameMap::new(width, height);
        let mut rng = new_rng();
        let mut tried: usize = 0;
        let ghost mut flips: Seq<bool> = Seq::empty();
        proof {
            assert(map.rooms_linked());
            assert forall|x: int, y: int| map.in_bounds(x, y) implies (#[trigger] map.is_floor(x, y)
                <==> map.dug(x, y, flips)) by {
                crate::map::lemma_index_fits(x, y, width as int, height as int);
            }
        }
        while tried < max_rooms
            invariant
                2 <= min_size < max_size,
                max_size < width,
                max_size < height,
                tried <= max_rooms,
                map.generated(),
                map.width == width,
                map.height == height,
                map.rooms.len() <= tried,
                tried >= 1 ==> map.rooms.len() >= 1,
                map.rooms_sized(min_size as int, max_size as int),
                map.rooms_off_rim(),
                map.floors_are(flips),
                forall|i: int| 0 <= i < map.tiles.len() ==> !map.revealed_tiles[i],
                forall|i: int| 0 <= i < map.tiles.len() ==> !map.visible_tiles[i],
                forall|i: int| 0 <= i < map.tiles.len() ==> !map.blocked[i],
                forall|i: int| 0 <= i < map.tiles.len() ==> map.tile_content[i]@.len() == 0,
            decreases max_rooms - tried,
        {
            let w: i32 = rng_range(&mut rng, min_size, max_size);
            let h: i32 = rng_range(&mut rng, min_size, max_size);
            let x: i32 = rng_roll_die(&mut rng, width - w - 1) - 1;
            let y: i32 = rng_roll_die(&mut rng, height - h - 1) - 1;
            let new_room: Rect = Rect::new(x, y, w, h);
            if map.room_fits(&new_room) {
                // One corridor joins the room to the one before it; a coin
                // decides which of its two stretches comes first.
                let horizontal_first: bool = if map.rooms.len() > 0 {
                    rng_range(&mut rng, 0, 2) == 1
                } else {
                    true
                };
                let ghost before = map;
                map.add_room(new_room, horizontal_first);
                proof {
                    lemma_floors_after_room(before, map, new_room, horizontal_first, flips);
                    flips = flips.push(horizontal_first);
                }
            }
            tried += 1;
        }
        map
    }

    /// A map of `MAP_WIDTH` by `MAP_HEIGHT` cells, with up to `MAX_ROOMS`
    /// rooms placed at random.
    pub fn new_map_rooms_and_corridors() -> (map: GameMap)
        ensures
            map.generated(),
            map.width == MAP_WIDTH,
            map.height == MAP_HEIGHT,
            1 <= map.rooms.len() <= MAX_ROOMS,
            map.rooms_sized(MIN_SIZE as int, MAX_SIZE as int),
            map.rooms_off_rim(),
            exists|flips: Seq<bool>| map.floors_are(flips),
            forall|i: int| 0 <= i < map.tiles.len() ==> !map.revealed_tiles[i],
            forall|i: int| 0 <= i < map.tiles.len() ==> !map.visible_tiles[i],
            forall|i: int| 0 <= i < map.tiles.len() ==> !map.blocked[i],
            forall|i: int| 0 <= i < map.tiles.len() ==> map.tile_content[i]@.len() == 0,
    {
        GameMap::generate(MAP_WIDTH, MAP_HEIGHT, MAX_ROOMS, MIN_SIZE, MAX_SIZE)
    }
}

/// A row before which no row has a tile of the map in column `col`, on a
/// map `w` cells wide.
pub open spec fn first_row_of(col: int, w: int) -> int {
    if col <= 0 {
        (-col) / w
    } else {
        -(col / w) - 1
    }
}

/// A row after which no row has a tile of the map in column `col`, on a map
/// of `len` tiles that is `w` cells wide.
pub open spec fn last_row_of(col: int, w: int, len: int) -> int {
    if len - col > 0 {
        (len - col) / w
    } else {
        -((col - len) / w)
    }
}

/// A row whose tile in column `col` is a tile of the map, and not the first
/// tile, lies between `first_row_of` and `last_row_of`.
pub proof fn lemma_row_of_tile(col: int, q: int, w: int, len: int)
    requires
        w >= 1,
        0 < lands(col, q, w) < len,
    ensures
        first_row_of(col, w) <= q <= last_row_of(col, w, len),
{
    let a = if col <= 0 { -col } else { col };
    let m = if len - col > 0 { len - col } else { col - len };
    vstd::arithmetic::div_mod::lemma_fundamental_div_mod(a, w);
    vstd::arithmetic::div_mod::lemma_mod_bound(a, w);
    vstd::arithmetic::div_mod::lemma_fundamental_div_mod(m, w);
    vstd::arithmetic::div_mod::lemma_mod_bound(m, w);
    let d = a / w;
    let e = m / w;
    assert(a == w * d + a % w && 0 <= a % w < w);
    assert(m == w * e + m % w && 0 <= m % w < w);
    let below = first_row_of(col, w);
    let above = last_row_of(col, w, len);
    if q < below {
        assert(q * w <= (below - 1) * w) by (nonlinear_arith)
            requires
                q <= below - 1,
                w >= 1,
        ;
        assert((below - 1) * w == below * w - w) by (nonlinear_arith);
        if col <= 0 {
            assert(below * w == w * d) by (nonlinear_arith)
                requires
                    below == d,
            ;
        } else {
            assert(below * w == -(w * d) - w) by (nonlinear_arith)
                requires
                    below == -d - 1,
            ;
        }
    }
    if q > above {
        assert(q * w >= (above + 1) * w) by (nonlinear_arith)
            requires
                q >= above + 1,
                w >= 1,
        ;
        assert((above + 1) * w == above * w + w) by (nonlinear_arith);
        if len - col > 0 {
            assert(above * w == w * e) by (nonlinear_arith)
                requires
                    above == e,
            ;
        } else {
            assert(above * w == -(w * e)) by (nonlinear_arith)
                requires
                    above == -e,
            ;
        }
    }
}

/// A floor cell is linked to itself.
pub proof fn lemma_linked_to_itself(m: GameMap, a: (int, int))
    requires
        m.is_floor(a.0, a.1),
    ensures
        m.linked(a, a),
{
    let p = seq![a];
    assert(m.walk(p));
    assert(p[0] == a && p.last() == a);
}

/// A walk can be made one floor cell longer.
pub proof fn lemma_linked_one_more(m: GameMap, a: (int, int), b: (int, int), c: (int, int))
    requires
        m.linked(a, b),
        beside(b, c),
        m.is_floor(c.0, c.1),
    ensures
        m.linked(a, c),
{
    let p = choose|p: Seq<(int, int)>| #[trigger] m.walk(p) && p[0] == a && p.last() == b;
    let q = p.push(c);
    assert forall|k: int| 0 <= k < q.len() implies m.is_floor(#[trigger] q[k].0, q[k].1) by {
        if k < p.len() {
            assert(q[k] == p[k]);
        }
    }
    assert forall|k: int| 0 <= k < q.len() - 1 implies beside(#[trigger] q[k], q[k + 1]) by {
        if k < p.len() - 1 {
            assert(q[k] == p[k]);
            assert(q[k + 1] == p[k + 1]);
        }
    }
    assert(m.walk(q));
    assert(q[0] == a && q.last() == c);
}

/// Two walks that meet make one walk.
pub proof fn lemma_linked_chain(m: GameMap, a: (int, int), b: (int, int), c: (int, int))
    requires
        m.linked(a, b),
        m.linked(b, c),
    ensures
        m.linked(a, c),
{
    let p = choose|p: Seq<(int, int)>| #[trigger] m.walk(p) && p[0] == a && p.last() == b;
    let q = choose|q: Seq<(int, int)>| #[trigger] m.walk(q) && q[0] == b && q.last() == c;
    let r = p + q.skip(1);
    assert forall|k: int| 0 <= k < r.len() implies m.is_floor(#[trigger] r[k].0, r[k].1) by {
        if k < p.len() {
            assert(r[k] == p[k]);
        } else {
            assert(r[k] == q[k - p.len() + 1]);
        }
    }
    assert forall|k: int| 0 <= k < r.len() - 1 implies beside(#[trigger] r[k], r[k + 1]) by {
        if k < p.len() - 1 {
            assert(r[k] == p[k]);
            assert(r[k + 1] == p[k + 1]);
        } else if k == p.len() - 1 {
            assert(r[k] == p[k]);
            assert(r[k] == q[0]);
            assert(r[k + 1] == q[1]);
        } else {
            assert(r[k] == q[k - p.len() + 1]);
            assert(r[k + 1] == q[k - p.len() + 2]);
        }
    }
    assert(m.walk(r));
    assert(r[0] == a);
    if q.len() == 1 {
        assert(r.last() == p.last());
    } else {
        assert(r.last() == q.last());
    }
}

/// A walk stays a walk when more cells become floor.
pub proof fn lemma_linked_grows(m: GameMap, n: GameMap, a: (int, int), b: (int, int))
    requires
        m.linked(a, b),
        forall|x: int, y: int| #[trigger] m.is_floor(x, y) ==> n.is_floor(x, y),
    ensures
        n.linked(a, b),
{
    let p = choose|p: Seq<(int, int)>| #[trigger] m.walk(p) && p[0] == a && p.last() == b;
    assert forall|k: int| 0 <= k < p.len() implies n.is_floor(#[trigger] p[k].0, p[k].1) by {
        assert(m.is_floor(p[k].0, p[k].1));
    }
    assert(n.walk(p));
}

/// The two ends of a stretch of floor along a row are linked.
pub proof fn lemma_row_linked(m: GameMap, xa: int, xb: int, y: int)
    requires
        forall|x: int| between(xa, xb, x) ==> #[trigger] m.is_floor(x, y),
    ensures
        m.linked((xa, y), (xb, y)),
    decreases
            if xa <= xb {
                xb - xa
            } else {
                xa - xb
            },
{
    assert(between(xa, xb, xa));
    assert(between(xa, xb, xb));
    if xa == xb {
        lemma_linked_to_itself(m, (xa, y));
    } else {
        let xc = if xa < xb {
            xb - 1
        } else {
            xb + 1
        };
        assert forall|x: int| between(xa, xc, x) implies #[trigger] m.is_floor(x, y) by {
            assert(between(xa, xb, x));
        }
        lemma_row_linked(m, xa, xc, y);
        lemma_linked_one_more(m, (xa, y), (xc, y), (xb, y));
    }
}

/// The two ends of a stretch of floor along a column are linked.
pub proof fn lemma_column_linked(m: GameMap, ya: int, yb: int, x: int)
    requires
        forall|y: int| between(ya, yb, y) ==> #[trigger] m.is_floor(x, y),
    ensures
        m.linked((x, ya), (x, yb)),
    decreases
            if ya <= yb {
                yb - ya
            } else {
                ya - yb
            },
{
    assert(between(ya, yb, ya));
    assert(between(ya, yb, yb));
    if ya == yb {
        lemma_linked_to_itself(m, (x, ya));
    } else {
        let yc = if ya < yb {
            yb - 1
        } else {
            yb + 1
        };
        assert forall|y: int| between(ya, yc, y) implies #[trigger] m.is_floor(x, y) by {
            assert(between(ya, yb, y));
        }
        lemma_column_linked(m, ya, yc, x);
        lemma_linked_one_more(m, (x, ya), (x, yc), (x, yb));
    }
}

/// Any two cells of a room whose cells are all floor are linked.
pub proof fn lemma_room_linked(m: GameMap, r: Rect, a: (int, int), b: (int, int))
    requires
        forall|x: int, y: int| r.holds(x, y) ==> #[trigger] m.is_floor(x, y),
        r.holds(a.0, a.1),
        r.holds(b.0, b.1),
    ensures
        m.linked(a, b),
{
    assert forall|x: int| between(a.0, b.0, x) implies #[trigger] m.is_floor(x, a.1) by {
        assert(r.holds(x, a.1));
    }
    lemma_row_linked(m, a.0, b.0, a.1);
    assert forall|y: int| between(a.1, b.1, y) implies #[trigger] m.is_floor(b.0, y) by {
        assert(r.holds(b.0, y));
    }
    lemma_column_linked(m, a.1, b.1, b.0);
    lemma_linked_chain(m, a, (b.0, a.1), b);
}

/// The two ends of a corridor inside the map whose cells are all floor
/// are linked.
pub proof fn lemma_corridor_linked(m: GameMap, from: (int, int), to: (int, int), horizontal_first: bool)
    requires
        m.width >= 1,
        forall|x: int, y: int|
            m.in_bounds(x, y) && on_corridor(x, y, m.width as int, from, to, horizontal_first)
                ==> #[trigger] m.is_floor(x, y),
        m.in_bounds(from.0, from.1),
        m.in_bounds(to.0, to.1),
        from.0 >= 1,
        to.0 >= 1,
    ensures
        m.linked(from, to),
{
    let w = m.width as int;
    let corner = if horizontal_first {
        (to.0, from.1)
    } else {
        (from.0, to.1)
    };
    assert forall|x: int, y: int| x >= 1 && y >= 0 implies lands(x, y, w) != 0 by {
        assert(y * w >= 0) by (nonlinear_arith)
            requires
                y >= 0,
                w >= 1,
        ;
    }
    if horizontal_first {
        assert forall|x: int| between(from.0, to.0, x) implies #[trigger] m.is_floor(x, from.1) by {
            assert(on_row(x, from.1, w, from.0, to.0, from.1));
            assert(on_corridor(x, from.1, w, from, to, horizontal_first));
        }
        lemma_row_linked(m, from.0, to.0, from.1);
        assert forall|y: int| between(from.1, to.1, y) implies #[trigger] m.is_floor(to.0, y) by {
            assert(lands(to.0, y, w) == lands(to.0, y, w));
            assert(on_column(to.0, y, w, from.1, to.1, to.0));
            assert(on_corridor(to.0, y, w, from, to, horizontal_first));
        }
        lemma_column_linked(m, from.1, to.1, to.0);
        lemma_linked_chain(m, from, corner, to);
    } else {
        assert forall|y: int| between(from.1, to.1, y) implies #[trigger] m.is_floor(from.0, y) by {
            assert(lands(from.0, y, w) == lands(from.0, y, w));
            assert(on_column(from.0, y, w, from.1, to.1, from.0));
            assert(on_corridor(from.0, y, w, from, to, horizontal_first));
        }
        lemma_column_linked(m, from.1, to.1, from.0);
        assert forall|x: int| between(from.0, to.0, x) implies #[trigger] m.is_floor(x, to.1) by {
            assert(on_row(x, to.1, w, from.0, to.0, to.1));
            assert(on_corridor(x, to.1, w, from, to, horizontal_first));
        }
        lemma_row_linked(m, from.0, to.0, to.1);
        lemma_linked_chain(m, from, corner, to);
    }
}

/// In a generated map one can walk over floor from any cell of any room to
/// any cell of the first room.
pub proof fn lemma_rooms_reach_the_first(m: GameMap, i: int, a: (int, int), b: (int, int))
    requires
        m.generated(),
        0 <= i < m.rooms.len(),
        m.rooms[i].holds(a.0, a.1),
        m.rooms[0].holds(b.0, b.1),
    ensures
        m.linked(a, b),
{
    let ri = m.rooms[i];
    let r0 = m.rooms[0];
    lemma_middle_is_inside(ri);
    lemma_middle_is_inside(r0);
    assert forall|x: int, y: int| ri.holds(x, y) implies #[trigger] m.is_floor(x, y) by {
        assert(m.rooms[i].holds(x, y));
    }
    assert forall|x: int, y: int| r0.holds(x, y) implies #[trigger] m.is_floor(x, y) by {
        assert(m.rooms[0].holds(x, y));
    }
    lemma_room_linked(m, ri, a, ri.middle());
    lemma_room_linked(m, r0, r0.middle(), b);
    lemma_linked_chain(m, a, ri.middle(), r0.middle());
    lemma_linked_chain(m, a, r0.middle(), b);
}

/// A walk can be walked backwards.
pub proof fn lemma_linked_back(m: GameMap, a: (int, int), b: (int, int))
    requires
        m.linked(a, b),
    ensures
        m.linked(b, a),
{
    let p = choose|p: Seq<(int, int)>| #[trigger] m.walk(p) && p[0] == a && p.last() == b;
    let n = p.len() as int;
    let q = Seq::new(p.len(), |k: int| p[n - 1 - k]);
    assert forall|k: int| 0 <= k < q.len() implies m.is_floor(#[trigger] q[k].0, q[k].1) by {
        assert(q[k] == p[n - 1 - k]);
    }
    assert forall|k: int| 0 <= k < q.len() - 1 implies beside(#[trigger] q[k], q[k + 1]) by {
        assert(q[k] == p[n - 1 - k]);
        assert(q[k + 1] == p[n - 2 - k]);
        assert(beside(p[n - 2 - k], p[n - 2 - k + 1]));
    }
    assert(m.walk(q));
    assert(q[0] == b && q.last() == a);
}

/// Adding a room of at least two by two cells to a generated map gives a
/// generated map.
pub proof fn lemma_room_added(before: GameMap, after: GameMap, room: Rect, horizontal_first: bool)
    requires
        before.generated(),
        after.wf(),
        before.room_is_free(room),
        before.room_added(after, room, horizontal_first),
        0 <= room.x1,
        room.x1 + 2 <= room.x2 < before.width,
        0 <= room.y1,
        room.y1 + 2 <= room.y2 < before.height,
    ensures
        after.generated(),
{
    let n = before.rooms.len() as int;
    assert(after.rooms.len() == n + 1);
    assert forall|i: int| 0 <= i < n implies after.rooms[i] == before.rooms[i] by {
        assert(before.rooms@.push(room)[i] == before.rooms@[i]);
    }
    assert(after.rooms[n] == room);
    assert forall|x: int, y: int| #[trigger] before.is_floor(x, y) implies after.is_floor(x, y) by {
        let t = after.tile_at(x, y);
    }
    assert forall|i: int, j: int| 0 <= i < j < after.rooms.len() implies !(#[trigger] after.rooms[i]).overlaps(
        #[trigger] after.rooms[j],
    ) by {
        if j < n {
            assert(!before.rooms[i].overlaps(before.rooms[j]));
        } else {
            assert(!room.overlaps(before.rooms[i]));
        }
    }
    assert forall|i: int| 0 <= i < after.rooms.len() implies {
        let r = #[trigger] after.rooms[i];
        &&& 0 <= r.x1
        &&& r.x1 + 2 <= r.x2 < after.width
        &&& 0 <= r.y1
        &&& r.y1 + 2 <= r.y2 < after.height
    } by {
        if i < n {
            let r = before.rooms[i];
        }
    }
    assert forall|i: int, x: int, y: int|
        0 <= i < after.rooms.len() && (#[trigger] after.rooms[i]).holds(x, y) implies #[trigger] after.is_floor(
        x,
        y,
    ) by {
        if i < n {
            assert(before.rooms[i].holds(x, y));
            assert(before.is_floor(x, y));
        } else {
            let t = after.tile_at(x, y);
        }
    }
    lemma_middle_is_inside(room);
    let mid = room.middle();
    assert(after.rooms[n].holds(mid.0, mid.1));
    assert(after.is_floor(mid.0, mid.1));
    assert forall|i: int| 0 <= i < after.rooms.len() implies after.linked(
        (#[trigger] after.rooms[i]).middle(),
        after.rooms[0].middle(),
    ) by {
        if i < n {
            assert(before.linked(before.rooms[i].middle(), before.rooms[0].middle()));
            lemma_linked_grows(before, after, before.rooms[i].middle(), before.rooms[0].middle());
        } else if n == 0 {
            lemma_linked_to_itself(after, mid);
        } else {
            let last = before.rooms[n - 1];
            assert(before.rooms@.last() == last);
            lemma_middle_is_inside(last);
            let from = last.middle();
            assert forall|x: int, y: int|
                after.in_bounds(x, y) && on_corridor(
                    x,
                    y,
                    after.width as int,
                    from,
                    mid,
                    horizontal_first,
                ) implies #[trigger] after.is_floor(x, y) by {
                let t = after.tile_at(x, y);
            }
            lemma_corridor_linked(after, from, mid, horizontal_first);
            lemma_linked_back(after, from, mid);
            assert(before.linked(last.middle(), before.rooms[0].middle()));
            lemma_linked_grows(before, after, from, before.rooms[0].middle());
            lemma_linked_chain(after, mid, from, before.rooms[0].middle());
        }
    }
}

/// Adding a room keeps the floor exact: where the floor was the rooms and
/// their corridors before, it is so afterwards, with the new corridor bent
/// as `horizontal_first` says.
pub proof fn lemma_floors_after_room(
    before: GameMap,
    after: GameMap,
    room: Rect,
    horizontal_first: bool,
    flips: Seq<bool>,
)
    requires
        before.wf(),
        before.floors_are(flips),
        before.room_added(after, room, horizontal_first),
    ensures
        after.floors_are(flips.push(horizontal_first)),
{
    let n = before.rooms.len() as int;
    let more = flips.push(horizontal_first);
    assert(after.rooms.len() == n + 1);
    assert forall|i: int| 0 <= i < n implies after.rooms[i] == before.rooms[i] by {
        assert(before.rooms@.push(room)[i] == before.rooms@[i]);
    }
    assert(after.rooms[n] == room);
    assert forall|x: int, y: int| after.in_bounds(x, y) implies (#[trigger] after.is_floor(x, y)
        <==> after.dug(x, y, more)) by {
        let t = after.tile_at(x, y);
        let fresh = room.holds(x, y) || (n > 0 && on_corridor(
            x,
            y,
            before.width as int,
            before.rooms@.last().middle(),
            room.middle(),
            horizontal_first,
        ));
        assert(after.is_floor(x, y) == (fresh || before.is_floor(x, y)));
        assert(before.is_floor(x, y) == before.dug(x, y, flips));
        if n > 0 {
            assert(after.rooms[n - 1] == before.rooms@.last());
        }
        assert(fresh == (after.rooms[n].holds(x, y) || after.joined(n, x, y, more)));
        if before.dug(x, y, flips) {
            let i = choose|i: int|
                #![trigger before.rooms[i]]
                0 <= i < before.rooms.len() && (before.rooms[i].holds(x, y) || before.joined(
                    i,
                    x,
                    y,
                    flips,
                ));
            assert(after.rooms[i] == before.rooms[i]);
            if i >= 1 {
                assert(after.rooms[i - 1] == before.rooms[i - 1]);
                assert(more[i] == flips[i]);
            }
            assert(after.rooms[i].holds(x, y) || after.joined(i, x, y, more));
        }
        if after.dug(x, y, more) {
            let i = choose|i: int|
                #![trigger after.rooms[i]]
                0 <= i < after.rooms.len() && (after.rooms[i].holds(x, y) || after.joined(i, x, y, more));
            if i < n {
                assert(after.rooms[i] == before.rooms[i]);
                if i >= 1 {
                    assert(after.rooms[i - 1] == before.rooms[i - 1]);
                    assert(more[i] == flips[i]);
                }
                assert(before.rooms[i].holds(x, y) || before.joined(i, x, y, flips));
            }
        }
    }
}

} // verus!
