//! The spatial grid: tiles, what is revealed and visible, what blocks
//! movement, and who stands where.

use vstd::prelude::*;
use crate::components::Entity;
use crate::rect::Rect;

verus! {

/// What a tile is made of. Walls block movement and sight.
#[derive(Clone, Copy, Debug, PartialEq, Eq, Structural)]
pub enum TileType {
    Wall,
    Floor,
}

/// Cost of a step to a cell that shares an edge, in hundredths.
pub const CARDINAL_COST: u32 = 100;

/// Cost of a step to a cell that shares only a corner, in hundredths.
pub const DIAGONAL_COST: u32 = 145;

/// The grid. The per-cell sequences hold one entry per cell, row after row:
/// the entry of cell `(x, y)` has index `y * width + x`.
#[derive(Clone, Debug, PartialEq, Eq)]
pub struct GameMap {
    pub tiles: Vec<TileType>,
    pub rooms: Vec<Rect>,
    pub width: i32,
    pub height: i32,
    pub revealed_tiles: Vec<bool>,
    pub visible_tiles: Vec<bool>,
    pub blocked: Vec<bool>,
    pub tile_content: Vec<Vec<Entity>>,
}

/// A cell inside a `w` by `h` grid has an index inside the grid's storage, and
/// the index gives the cell back.
pub proof fn lemma_index_fits(x: int, y: int, w: int, h: int)
    requires
        0 <= x < w,
        0 <= y < h,
    ensures
        0 <= y * w + x < w * h,
        (y * w + x) / w == y,
        (y * w + x) % w == x,
{
    assert(y * w + x < w * h) by (nonlinear_arith)
        requires
            0 <= x < w,
            0 <= y < h,
    ;
    assert(0 <= y * w) by (nonlinear_arith)
        requires
            0 <= y,
            0 < w,
    ;
    vstd::arithmetic::div_mod::lemma_fundamental_div_mod_converse(y * w + x, w, y, x);
}

/// An index inside the storage of a `w` by `h` grid names a cell inside the
/// grid.
pub proof fn lemma_cell_fits(i: int, w: int, h: int)
    requires
        0 <= i < w * h,
        0 < w,
    ensures
        0 <= i % w < w,
        0 <= i / w < h,
        (i / w) * w + i % w == i,
{
    vstd::arithmetic::div_mod::lemma_fundamental_div_mod(i, w);
    assert(0 <= i / w < h) by (nonlinear_arith)
        requires
            0 <= i < w * h,
            0 < w,
            i == w * (i / w) + i % w,
            0 <= i % w < w,
    ;
    assert((i / w) * w == w * (i / w)) by (nonlinear_arith);
}

/// The sequence `s`, with `e` added at its end where `open` holds.
pub open spec fn with_exit(s: Seq<(usize, u32)>, open: bool, e: (usize, u32)) -> Seq<(usize, u32)> {
    if open {
        s.push(e)
    } else {
        s
    }
}

/// A vector of `n` copies of `value`.
pub fn filled<T: Copy>(value: T, n: usize) -> (v: Vec<T>)
    ensures
        v.len() == n,
        forall|i: int| 0 <= i < n ==> v[i] == value,
{
    let mut v: Vec<T> = Vec::new();
    while v.len() < n
        invariant
            v.len() <= n,
            forall|i: int| 0 <= i < v.len() ==> v[i] == value,
        decreases n - v.len(),
    {
        v.push(value);
    }
    v
}

impl GameMap {
    /// The map's invariant: one entry per cell in every per-cell sequence,
    /// and no more cells than an `i32` counts, since the field-of-view sweep
    /// and the path search compute tile indices in that type.
    pub open spec fn wf(&self) -> bool {
        &&& self.width >= 1
        &&& self.height >= 1
        &&& self.width * self.height <= i32::MAX
        &&& self.tiles.len() == self.width * self.height
        &&& self.revealed_tiles.len() == self.tiles.len()
        &&& self.visible_tiles.len() == self.tiles.len()
        &&& self.blocked.len() == self.tiles.len()
        &&& self.tile_content.len() == self.tiles.len()
    }

    /// Whether `(x, y)` is a cell of the map.
    pub open spec fn in_bounds(&self, x: int, y: int) -> bool {
        0 <= x < self.width && 0 <= y < self.height
    }

    /// The index of cell `(x, y)`: rows follow one another.
    pub open spec fn index_of(&self, x: int, y: int) -> int {
        y * self.width + x
    }

    /// What cell `(x, y)` is made of.
    pub open spec fn tile_at(&self, x: int, y: int) -> TileType {
        self.tiles[self.index_of(x, y)]
    }

    /// Whether `(x, y)` is a cell of the map and a floor.
    pub open spec fn is_floor(&self, x: int, y: int) -> bool {
        self.in_bounds(x, y) && self.tile_at(x, y) == TileType::Floor
    }

    /// Whether a tile blocks sight. Only walls do; what lies outside the map
    /// counts as opaque.
    pub open spec fn opaque_at(&self, idx: int) -> bool {
        !(0 <= idx < self.tiles.len()) || self.tiles[idx] == TileType::Wall
    }

    /// For each tile in order, whether it blocks sight.
    pub open spec fn opacity(&self) -> Seq<bool> {
        Seq::new(self.tiles.len() as nat, |i: int| self.tiles[i] == TileType::Wall)
    }

    /// Whether an actor may step onto `(x, y)`: the cell is neither in the
    /// first row or column nor outside the map, and nothing blocks it.
    pub open spec fn exit_open(&self, x: int, y: int) -> bool {
        1 <= x <= self.width - 1 && 1 <= y <= self.height - 1 && !self.blocked[self.index_of(x, y)]
    }

    /// The cells one can step to from tile `idx`, each with the cost of the
    /// step: west, east, north, south, then the four diagonals.
    pub open spec fn exits_of(&self, idx: int) -> Seq<(usize, u32)> {
        let w = self.width as int;
        let x = idx % w;
        let y = idx / w;
        let s0 = Seq::<(usize, u32)>::empty();
        let s1 = with_exit(s0, self.exit_open(x - 1, y), ((idx - 1) as usize, CARDINAL_COST));
        let s2 = with_exit(s1, self.exit_open(x + 1, y), ((idx + 1) as usize, CARDINAL_COST));
        let s3 = with_exit(s2, self.exit_open(x, y - 1), ((idx - w) as usize, CARDINAL_COST));
        let s4 = with_exit(s3, self.exit_open(x, y + 1), ((idx + w) as usize, CARDINAL_COST));
        let s5 = with_exit(s4, self.exit_open(x - 1, y - 1), ((idx - w - 1) as usize, DIAGONAL_COST));
        let s6 = with_exit(s5, self.exit_open(x + 1, y - 1), ((idx - w + 1) as usize, DIAGONAL_COST));
        let s7 = with_exit(s6, self.exit_open(x - 1, y + 1), ((idx + w - 1) as usize, DIAGONAL_COST));
        let s8 = with_exit(s7, self.exit_open(x + 1, y + 1), ((idx + w + 1) as usize, DIAGONAL_COST));
        if 0 <= idx < self.tiles.len() {
            s8
        } else {
            s0
        }
    }

    /// Whether the tiles of `after` are those of `self` with exactly the
    /// cells of `region` made floor.
    pub open spec fn carved(&self, after: GameMap, region: spec_fn(int, int) -> bool) -> bool {
        &&& after.width == self.width
        &&& after.height == self.height
        &&& after.tiles.len() == self.tiles.len()
        &&& forall|x: int, y: int|
            #![trigger after.tile_at(x, y)]
            self.in_bounds(x, y) ==> after.tile_at(x, y) == if region(x, y) {
                TileType::Floor
            } else {
                self.tile_at(x, y)
            }
    }

    /// A map of walls only, with nothing revealed, visible or blocked.
    pub fn new(width: i32, height: i32) -> (map: GameMap)
        requires
            width >= 1,
            height >= 1,
            width * height <= i32::MAX,
        ensures
            map.wf(),
            map.width == width,
            map.height == height,
            map.rooms@.len() == 0,
            forall|i: int| 0 <= i < map.tiles.len() ==> map.tiles[i] == TileType::Wall,
            forall|i: int| 0 <= i < map.tiles.len() ==> !map.revealed_tiles[i],
            forall|i: int| 0 <= i < map.tiles.len() ==> !map.visible_tiles[i],
            forall|i: int| 0 <= i < map.tiles.len() ==> !map.blocked[i],
            forall|i: int| 0 <= i < map.tiles.len() ==> map.tile_content[i]@.len() == 0,
    {
        assert(0 < width * height) by (nonlinear_arith)
            requires
                width >= 1,
                height >= 1,
        ;
        let count: usize = (width as usize) * (height as usize);
        let mut tile_content: Vec<Vec<Entity>> = Vec::new();
        while tile_content.len() < count
            invariant
                tile_content.len() <= count,
                forall|i: int| 0 <= i < tile_content.len() ==> tile_content[i]@.len() == 0,
            decreases count - tile_content.len(),
        {
            tile_content.push(Vec::new());
        }
        GameMap {
            tiles: filled(TileType::Wall, count),
            rooms: Vec::new(),
            width,
            height,
            revealed_tiles: filled(false, count),
            visible_tiles: filled(false, count),
            blocked: filled(false, count),
            tile_content,
        }
    }

    /// Whether the per-cell sequences have one entry per cell.
    pub fn is_well_formed(&self) -> (ok: bool)
        ensures
            ok == self.wf(),
    {
        if self.width < 1 || self.height < 1 {
            return false;
        }
        assert(self.width * self.height <= 0x7fff_ffff * 0x7fff_ffff) by (nonlinear_arith)
            requires
                1 <= self.width <= 0x7fff_ffff,
                1 <= self.height <= 0x7fff_ffff,
        ;
        let cells: u64 = (self.width as u64) * (self.height as u64);
        let len: usize = self.tiles.len();
        cells <= i32::MAX as u64 && len as u64 == cells && self.revealed_tiles.len() == len && self.visible_tiles.len() == len
            && self.blocked.len() == len && self.tile_content.len() == len
    }

    /// The index of cell `(x, y)`.
    pub fn map_index(&self, x: i32, y: i32) -> (idx: usize)
        requires
            self.wf(),
            self.in_bounds(x as int, y as int),
        ensures
            idx == self.index_of(x as int, y as int),
            idx < self.tiles.len(),
    {
        proof {
            lemma_index_fits(x as int, y as int, self.width as int, self.height as int);
        }
        (y as usize) * (self.width as usize) + (x as usize)
    }

    /// The cell that tile `idx` stands for.
    pub fn cell_of(&self, idx: usize) -> (c: (i32, i32))
        requires
            self.wf(),
            idx < self.tiles.len(),
        ensures
            self.in_bounds(c.0 as int, c.1 as int),
            self.index_of(c.0 as int, c.1 as int) == idx,
            c.0 == idx as int % self.width as int,
            c.1 == idx as int / self.width as int,
    {
        proof {
            lemma_cell_fits(idx as int, self.width as int, self.height as int);
        }
        let w: usize = self.width as usize;
        ((idx % w) as i32, (idx / w) as i32)
    }

    /// Makes cell `(x, y)` a floor.
    pub fn carve(&mut self, x: i32, y: i32)
        requires
            old(self).wf(),
            old(self).in_bounds(x as int, y as int),
        ensures
            final(self).wf(),
            *final(self) == (GameMap { tiles: final(self).tiles, ..*old(self) }),
            old(self).carved(*final(self), |a: int, b: int| a == x && b == y),
    {
        let idx: usize = self.map_index(x, y);
        self.tiles[idx] = TileType::Floor;
        proof {
            let w = self.width as int;
            let h = self.height as int;
            assert forall|a: int, b: int| old(self).in_bounds(a, b) implies #[trigger] self.tile_at(
                a,
                b,
            ) == if a == x && b == y {
                TileType::Floor
            } else {
                old(self).tile_at(a, b)
            } by {
                lemma_index_fits(a, b, w, h);
                lemma_index_fits(x as int, y as int, w, h);
            }
        }
    }

    /// Carves the floor of `room`: every cell that the room holds.
    pub fn apply_room_to_map(&mut self, room: &Rect)
        requires
            old(self).wf(),
            0 <= room.x1,
            room.x2 < old(self).width,
            0 <= room.y1,
            room.y2 < old(self).height,
        ensures
            final(self).wf(),
            *final(self) == (GameMap { tiles: final(self).tiles, ..*old(self) }),
            old(self).carved(*final(self), |x: int, y: int| room.holds(x, y)),
    {
        if room.x1 >= room.x2 || room.y1 >= room.y2 {
            assert forall|a: int, b: int| old(self).in_bounds(a, b) implies #[trigger] self.tile_at(
                a,
                b,
            ) == if room.holds(a, b) {
                TileType::Floor
            } else {
                old(self).tile_at(a, b)
            } by {}
            return ;
        }
        let mut y: i32 = room.y1 + 1;
        while y <= room.y2
            invariant
                self.wf(),
                0 <= room.x1 < room.x2,
                room.x2 < self.width,
                0 <= room.y1 < room.y2,
                room.y2 < self.height,
                room.y1 < y <= room.y2 + 1,
                *self == (GameMap { tiles: self.tiles, ..*old(self) }),
                old(self).carved(*self, |a: int, b: int| room.holds(a, b) && b < y),
            decreases room.y2 + 1 - y,
        {
            let mut x: i32 = room.x1 + 1;
            while x <= room.x2
                invariant
                    self.wf(),
                    0 <= room.x1 < room.x2,
                    room.x2 < self.width,
                    0 <= room.y1,
                    room.y1 < y <= room.y2,
                    room.y2 < self.height,
                    room.x1 < x <= room.x2 + 1,
                    *self == (GameMap { tiles: self.tiles, ..*old(self) }),
                    old(self).carved(
                        *self,
                        |a: int, b: int| room.holds(a, b) && (b < y || (b == y && a < x)),
                    ),
                decreases room.x2 + 1 - x,
            {
                let ghost before = *self;
                self.carve(x, y);
                proof {
                    assert forall|a: int, b: int| old(self).in_bounds(a, b) implies #[trigger] self.tile_at(
                        a,
                        b,
                    ) == if room.holds(a, b) && (b < y || (b == y && a < x + 1)) {
                        TileType::Floor
                    } else {
                        old(self).tile_at(a, b)
                    } by {
                        let t = before.tile_at(a, b);
                    }
                }
                x = x + 1;
            }
            assert forall|a: int, b: int| old(self).in_bounds(a, b) implies #[trigger] self.tile_at(
                a,
                b,
            ) == if room.holds(a, b) && b < y + 1 {
                TileType::Floor
            } else {
                old(self).tile_at(a, b)
            } by {}
            y = y + 1;
        }
        assert forall|a: int, b: int| old(self).in_bounds(a, b) implies #[trigger] self.tile_at(a, b)
            == if room.holds(a, b) {
            TileType::Floor
        } else {
            old(self).tile_at(a, b)
        } by {}
    }

    /// Whether an actor may step onto `(x, y)`.
    pub fn is_exit_valid(&self, x: i32, y: i32) -> (ok: bool)
        requires
            self.wf(),
        ensures
            ok == self.exit_open(x as int, y as int),
    {
        if x < 1 || x > self.width - 1 || y < 1 || y > self.height - 1 {
            return false;
        }
        let idx: usize = self.map_index(x, y);
        !self.blocked[idx]
    }

    /// The cells one can step to from tile `idx`, each with the cost of the
    /// step in hundredths. A tile outside the map has no exits.
    pub fn get_available_exits(&self, idx: usize) -> (exits: Vec<(usize, u32)>)
        requires
            self.wf(),
        ensures
            exits@ == self.exits_of(idx as int),
    {
        let mut exits: Vec<(usize, u32)> = Vec::new();
        if idx >= self.tiles.len() {
            return exits;
        }
        let c: (i32, i32) = self.cell_of(idx);
        let x: i32 = c.0;
        let y: i32 = c.1;
        let w: usize = self.width as usize;
        proof {
            lemma_index_fits(x as int, y as int, self.width as int, self.height as int);
            if y + 1 < self.height {
                lemma_index_fits(x as int, y + 1, self.width as int, self.height as int);
            }
            if y >= 1 {
                lemma_index_fits(x as int, y - 1, self.width as int, self.height as int);
            }
            assert((y + 1) * self.width == y * self.width + self.width) by (nonlinear_arith);
            if y + 1 < self.height && x + 1 < self.width {
                lemma_index_fits(x + 1, y + 1, self.width as int, self.height as int);
            }
            assert(y >= 1 ==> y * self.width >= self.width) by (nonlinear_arith)
                requires
                    self.width >= 1,
            ;
            assert(y >= 2 ==> y * self.width >= self.width + 1) by (nonlinear_arith)
                requires
                    self.width >= 1,
            ;
        }

        // Cardinal directions
        if self.is_exit_valid(x - 1, y) {
            exits.push((idx - 1, CARDINAL_COST));
        }
        if self.is_exit_valid(x + 1, y) {
            exits.push((idx + 1, CARDINAL_COST));
        }
        if self.is_exit_valid(x, y - 1) {
            exits.push((idx - w, CARDINAL_COST));
        }
        if self.is_exit_valid(x, y + 1) {
            exits.push((idx + w, CARDINAL_COST));
        }
        // Diagonals
        if self.is_exit_valid(x - 1, y - 1) {
            exits.push(((idx - w) - 1, DIAGONAL_COST));
        }
        if self.is_exit_valid(x + 1, y - 1) {
            exits.push(((idx - w) + 1, DIAGONAL_COST));
        }
        if self.is_exit_valid(x - 1, y + 1) {
            exits.push(((idx + w) - 1, DIAGONAL_COST));
        }
        if self.is_exit_valid(x + 1, y + 1) {
            exits.push(((idx + w) + 1, DIAGONAL_COST));
        }
        exits
    }

    /// Marks every wall as blocked and every other tile as free.
    pub fn populate_blocked(&mut self)
        requires
            old(self).wf(),
        ensures
            final(self).wf(),
            *final(self) == (GameMap { blocked: final(self).blocked, ..*old(self) }),
            forall|i: int|
                0 <= i < final(self).tiles.len() ==> final(self).blocked[i] == (final(self).tiles[i]
                    == TileType::Wall),
    {
        let mut i: usize = 0;
        while i < self.tiles.len()
            invariant
                self.wf(),
                i <= self.tiles.len(),
                *self == (GameMap { blocked: self.blocked, ..*old(self) }),
                forall|k: int| 0 <= k < i ==> self.blocked[k] == (self.tiles[k] == TileType::Wall),
            decreases self.tiles.len() - i,
        {
            let wall: bool = self.tiles[i] == TileType::Wall;
            self.blocked[i] = wall;
            i += 1;
        }
    }

    /// Empties the list of actors of every tile.
    pub fn clear_content_index(&mut self)
        requires
            old(self).wf(),
        ensures
            final(self).wf(),
            *final(self) == (GameMap { tile_content: final(self).tile_content, ..*old(self) }),
            forall|i: int|
                0 <= i < final(self).tile_content.len() ==> final(self).tile_content[i]@.len() == 0,
    {
        let mut i: usize = 0;
        while i < self.tile_content.len()
            invariant
                self.wf(),
                i <= self.tile_content.len(),
                *self == (GameMap { tile_content: self.tile_content, ..*old(self) }),
                forall|k: int| 0 <= k < i ==> self.tile_content[k]@.len() == 0,
            decreases self.tile_content.len() - i,
        {
            self.tile_content[i].clear();
            i += 1;
        }
    }
}

} // verus!
