//! The attributes an actor may carry.

use vstd::prelude::*;
use crate::geometry::Coord;

verus! {

/// The stable identifier of an actor.
#[derive(Clone, Copy, Debug, PartialEq, Eq, Structural)]
pub struct Entity {
    pub id: u32,
}

/// Largest sight range a viewshed may have: the field-of-view sweep squares
/// twice the range in an `i32`, and this is the largest range whose square
/// that type still holds.
pub const MAX_VIEW_RANGE: i32 = 23170;

/// Something that can be picked up.
#[derive(Clone, Copy, Debug, PartialEq, Eq, Structural)]
pub struct Item {
}

/// A potion, and how much health it gives back.
#[derive(Clone, Copy, Debug, PartialEq, Eq, Structural)]
pub struct Potion {
    pub heal_amount: i32,
}

/// Damage that was dealt to an actor and not applied to its health yet.
#[derive(Clone, Debug, PartialEq, Eq)]
pub struct SufferDamage {
    pub amount: Vec<i32>,
}

/// The wish to attack `target` in this tick.
#[derive(Clone, Copy, Debug, PartialEq, Eq, Structural)]
pub struct WantsToMelee {
    pub target: Entity,
}

/// What an actor brings to a fight. An actor whose `hp` is below one is dead.
#[derive(Clone, Copy, Debug, PartialEq, Eq, Structural)]
pub struct CombatStats {
    pub max_hp: i32,
    pub hp: i32,
    pub defense: i32,
    pub power: i32,
}

/// Marks an actor that other actors cannot walk through.
#[derive(Clone, Copy, Debug, PartialEq, Eq, Structural)]
pub struct BlocksTile {
}

/// What an actor is called in the log.
#[derive(Clone, Debug, PartialEq, Eq)]
pub struct Name {
    pub name: String,
}

/// The result of a path search: the cells to walk through, the first of
/// them being the cell the search started from.
#[derive(Clone, Debug, PartialEq, Eq)]
pub struct NavigationPath {
    pub destination: usize,
    pub success: bool,
    pub steps: Vec<usize>,
}

/// What a hostile actor remembers of the player.
#[derive(Clone, Debug, PartialEq, Eq)]
pub struct Monster {
    pub last_known_player_pos: Option<Coord>,
    pub last_pathfind: Option<NavigationPath>,
}

/// The cells an actor sees. `dirty` asks for the set to be computed anew.
#[derive(Clone, Debug, PartialEq, Eq)]
pub struct Viewshed {
    pub visible_tiles: Vec<Coord>,
    pub range: i32,
    pub dirty: bool,
}

/// The cell an actor stands on.
#[derive(Clone, Copy, Debug, PartialEq, Eq, Structural)]
pub struct Position {
    pub x: i32,
    pub y: i32,
}

/// A colour, one byte per channel.
#[derive(Clone, Copy, Debug, PartialEq, Eq, Structural)]
pub struct Rgb {
    pub r: u8,
    pub g: u8,
    pub b: u8,
}

/// How an actor is drawn. The simulation carries it and never reads it.
#[derive(Clone, Copy, Debug, PartialEq, Eq, Structural)]
pub struct Renderable {
    pub glyph: u16,
    pub fg: Rgb,
    pub bg: Rgb,
}

/// Marks the actor that the player's intents move, and counts its steps.
#[derive(Clone, Copy, Debug, PartialEq, Eq, Structural)]
pub struct Player {
    pub number_of_moves: i32,
}

/// The wish of `collected_by` to pick `item` up in this tick.
#[derive(Clone, Copy, Debug, PartialEq, Eq, Structural)]
pub struct WantsToPickupItem {
    pub collected_by: Entity,
    pub item: Entity,
}

/// Marks an item that lies in the backpack of `owner`.
#[derive(Clone, Copy, Debug, PartialEq, Eq, Structural)]
pub struct InInventory {
    pub owner: Entity,
}

impl Position {
    /// The position as a cell of the grid.
    pub open spec fn point(self) -> Coord {
        Coord { x: self.x, y: self.y }
    }

    /// The position as a cell of the grid.
    pub fn to_point(&self) -> (p: Coord)
        ensures
            p == self.point(),
    {
        Coord { x: self.x, y: self.y }
    }
}

impl Viewshed {
    /// A viewshed that sees nothing yet and asks to be computed.
    pub fn new(range: i32) -> (v: Viewshed)
        ensures
            v.visible_tiles@.len() == 0,
            v.range == range,
            v.dirty,
    {
        Viewshed { visible_tiles: Vec::new(), range, dirty: true }
    }

    /// Whether the range is one the field-of-view sweep accepts.
    pub open spec fn wf(&self) -> bool {
        0 <= self.range <= MAX_VIEW_RANGE
    }

    /// Whether `p` is among the visible cells.
    pub fn sees(&self, p: Coord) -> (r: bool)
        ensures
            r == self.visible_tiles@.contains(p),
    {
        let mut i: usize = 0;
        while i < self.visible_tiles.len()
            invariant
                i <= self.visible_tiles.len(),
                forall|k: int| 0 <= k < i ==> self.visible_tiles@[k] != p,
            decreases self.visible_tiles.len() - i,
        {
            let q: Coord = self.visible_tiles[i];
            if q.x == p.x && q.y == p.y {
                return true;
            }
            i += 1;
        }
        false
    }
}

impl Monster {
    /// A hostile that has not seen the player and has no path.
    pub fn new() -> (m: Monster)
        ensures
            m.last_known_player_pos is None,
            m.last_pathfind is None,
    {
        Monster { last_known_player_pos: None, last_pathfind: None }
    }
}

} // verus!
