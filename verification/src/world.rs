//! The actor table: every actor with the attributes it carries, together
//! with the state that all systems share.

use vstd::prelude::*;
use crate::components::{
    BlocksTile, CombatStats, Entity, InInventory, Item, Monster, Name, Player, Position, Potion,
    Renderable, SufferDamage, Viewshed, WantsToMelee, WantsToPickupItem,
};
use crate::gamelog::GameLog;
use crate::geometry::Coord;
use crate::map::GameMap;
use crate::state::{GodMode, RunState};

verus! {

/// Distance below which a hostile attacks, in tenths of a tile.
pub const MELEE_REACH: u32 = 15;

/// Distance beyond which a hostile that lost sight of the player gives up,
/// in tenths of a tile.
pub const FORGET_DISTANCE: u32 = 80;

/// An actor: an identifier and any subset of the attributes.
#[derive(Clone, Debug, PartialEq, Eq)]
pub struct Actor {
    pub entity: Entity,
    pub position: Option<Position>,
    pub renderable: Option<Renderable>,
    pub viewshed: Option<Viewshed>,
    pub combat_stats: Option<CombatStats>,
    pub suffer_damage: Option<SufferDamage>,
    pub wants_to_melee: Option<WantsToMelee>,
    pub monster: Option<Monster>,
    pub player: Option<Player>,
    pub name: Option<Name>,
    pub blocks_tile: Option<BlocksTile>,
    pub item: Option<Item>,
    pub potion: Option<Potion>,
    pub wants_to_pickup: Option<WantsToPickupItem>,
    pub in_inventory: Option<InInventory>,
}

/// The shared state of the simulation. The table owns all attribute data;
/// the map refers to actors by identifier only.
#[derive(Clone, Debug, PartialEq, Eq)]
pub struct World {
    pub actors: Vec<Actor>,
    pub map: GameMap,
    /// Where the player stands.
    pub player_pos: Coord,
    /// Whom hostiles attack.
    pub player_entity: Entity,
    pub run_state: RunState,
    pub godmode: GodMode,
    pub log: GameLog,
    /// Set once the player's health has run out.
    pub game_over: bool,
    /// Distance below which a hostile attacks, in tenths of a tile.
    pub melee_reach: u32,
    /// Distance beyond which a hostile gives up the chase, in tenths of a tile.
    pub forget_distance: u32,
    /// The identifier that the next new actor gets.
    pub next_id: u32,
}

impl Actor {
    /// An actor that carries nothing.
    pub open spec fn bare(entity: Entity) -> Actor {
        Actor {
            entity,
            position: None,
            renderable: None,
            viewshed: None,
            combat_stats: None,
            suffer_damage: None,
            wants_to_melee: None,
            monster: None,
            player: None,
            name: None,
            blocks_tile: None,
            item: None,
            potion: None,
            wants_to_pickup: None,
            in_inventory: None,
        }
    }

    /// An actor that carries nothing.
    pub fn new(entity: Entity) -> (a: Actor)
        ensures
            a == Actor::bare(entity),
    {
        Actor {
            entity,
            position: None,
            renderable: None,
            viewshed: None,
            combat_stats: None,
            suffer_damage: None,
            wants_to_melee: None,
            monster: None,
            player: None,
            name: None,
            blocks_tile: None,
            item: None,
            potion: None,
            wants_to_pickup: None,
            in_inventory: None,
        }
    }

    /// Whether the actor fits on `map`: it stands on a cell of the map, what
    /// it remembers of the player is a cell of the map, and its sight range
    /// is one the field-of-view sweep accepts.
    pub open spec fn fits(&self, map: &GameMap) -> bool {
        &&& self.position matches Some(p) ==> map.in_bounds(p.x as int, p.y as int)
        &&& self.viewshed matches Some(v) ==> v.wf()
        &&& self.monster matches Some(m) ==> (m.last_known_player_pos matches Some(p)
            ==> map.in_bounds(p.x as int, p.y as int))
    }

    /// Whether the actor fits on `map`.
    pub fn does_fit(&self, map: &GameMap) -> (ok: bool)
        ensures
            ok == self.fits(map),
    {
        let placed: bool = match &self.position {
            Some(p) => 0 <= p.x && p.x < map.width && 0 <= p.y && p.y < map.height,
            None => true,
        };
        let sighted: bool = match &self.viewshed {
            Some(v) => 0 <= v.range && v.range <= crate::components::MAX_VIEW_RANGE,
            None => true,
        };
        let minded: bool = match &self.monster {
            Some(m) => match &m.last_known_player_pos {
                Some(p) => 0 <= p.x && p.x < map.width && 0 <= p.y && p.y < map.height,
                None => true,
            },
            None => true,
        };
        placed && sighted && minded
    }

    /// The actor's name, where it has one.
    pub open spec fn label(&self) -> Option<String> {
        match self.name {
            Some(n) => Some(n.name),
            None => None,
        }
    }

    /// A copy of the actor's name, where it has one.
    pub fn label_copy(&self) -> (l: Option<String>)
        ensures
            l == self.label(),
    {
        match &self.name {
            Some(n) => Some(n.name.clone()),
            None => None,
        }
    }
}

impl World {
    /// The table's invariant.
    pub open spec fn wf(&self) -> bool {
        &&& self.map.wf()
        &&& self.map.in_bounds(self.player_pos.x as int, self.player_pos.y as int)
        &&& forall|i: int| 0 <= i < self.actors.len() ==> (#[trigger] self.actors[i]).fits(&self.map)
        &&& forall|i: int| 0 <= i < self.actors.len() ==> (#[trigger] self.actors[i]).entity.id < self.next_id
        &&& forall|i: int, j: int|
            0 <= i < j < self.actors.len() ==> (#[trigger] self.actors[i]).entity != (
            #[trigger] self.actors[j]).entity
        &&& forall|i: int, j: int|
            0 <= i < self.actors.len() && 0 <= j < self.actors.len() && (
            #[trigger] self.actors[i]).player is Some && (#[trigger] self.actors[j]).player is Some
                ==> i == j
    }

    /// Whether the table's invariant holds.
    pub fn is_well_formed(&self) -> (ok: bool)
        ensures
            ok == self.wf(),
    {
        if !self.map.is_well_formed() {
            return false;
        }
        let p: Coord = self.player_pos;
        if !(0 <= p.x && p.x < self.map.width && 0 <= p.y && p.y < self.map.height) {
            return false;
        }
        let mut players: usize = 0;
        let ghost mut player_row: int = 0;
        let mut i: usize = 0;
        while i < self.actors.len()
            invariant
                i <= self.actors.len(),
                players <= 1,
                players == 1 ==> 0 <= player_row < i && self.actors[player_row].player is Some,
                players == 0 ==> forall|k: int| 0 <= k < i ==> (#[trigger] self.actors[k]).player is None,
                forall|k: int| 0 <= k < i ==> (#[trigger] self.actors[k]).fits(&self.map),
                forall|k: int| 0 <= k < i ==> (#[trigger] self.actors[k]).entity.id < self.next_id,
                forall|a: int, b: int|
                    0 <= a < b < i ==> (#[trigger] self.actors[a]).entity != (#[trigger] self.actors[b]).entity,
                forall|a: int, b: int|
                    0 <= a < i && 0 <= b < i && (#[trigger] self.actors[a]).player is Some && (
                    #[trigger] self.actors[b]).player is Some ==> a == b,
            decreases self.actors.len() - i,
        {
            let actor = &self.actors[i];
            if !actor.does_fit(&self.map) || actor.entity.id >= self.next_id {
                return false;
            }
            if actor.player.is_some() {
                if players == 1 {
                    assert(self.actors[player_row].player is Some && self.actors[i as int].player is Some);
                    return false;
                }
                players = 1;
                proof {
                    player_row = i as int;
                }
            }
            let mut j: usize = 0;
            while j < i
                invariant
                    j <= i,
                    i < self.actors.len(),
                    forall|a: int| 0 <= a < j ==> (#[trigger] self.actors[a]).entity != self.actors[i as int].entity,
                decreases i - j,
            {
                if self.actors[j].entity.id == self.actors[i].entity.id {
                    assert(self.actors[j as int].entity == self.actors[i as int].entity);
                    return false;
                }
                j += 1;
            }
            i += 1;
        }
        true
    }

    /// Whether some actor has identifier `e`.
    pub open spec fn has(&self, e: Entity) -> bool {
        exists|i: int| 0 <= i < self.actors.len() && (#[trigger] self.actors[i]).entity == e
    }

    /// Whether row `i` is the first row of an actor with identifier `e`.
    pub open spec fn is_row_of(&self, i: int, e: Entity) -> bool {
        &&& 0 <= i < self.actors.len()
        &&& self.actors[i].entity == e
        &&& forall|k: int| 0 <= k < i ==> (#[trigger] self.actors[k]).entity != e
    }

    /// The row of the actor with identifier `e`, where there is one.
    pub open spec fn row(&self, e: Entity) -> int {
        choose|i: int| self.is_row_of(i, e)
    }

    /// A world on `map` without actors, about to run its first tick.
    pub fn new(map: GameMap) -> (w: World)
        requires
            map.wf(),
        ensures
            w.wf(),
            w.map == map,
            w.actors@.len() == 0,
            w.run_state == RunState::PreRun,
            !w.godmode.0,
            !w.game_over,
            w.log.entries@.len() == 0,
            w.melee_reach == MELEE_REACH,
            w.forget_distance == FORGET_DISTANCE,
            w.player_pos == (Coord { x: 0, y: 0 }),
            w.player_entity == (Entity { id: 0 }),
            w.next_id == 0,
    {
        World {
            actors: Vec::new(),
            map,
            player_pos: Coord { x: 0, y: 0 },
            player_entity: Entity { id: 0 },
            run_state: RunState::PreRun,
            godmode: GodMode(false),
            log: GameLog::new(),
            game_over: false,
            melee_reach: MELEE_REACH,
            forget_distance: FORGET_DISTANCE,
            next_id: 0,
        }
    }

    /// Adds an actor that carries nothing and returns its identifier, which
    /// no other actor has. Returns `None`, and changes nothing, once all
    /// identifiers are used up.
    pub fn create_entity(&mut self) -> (e: Option<Entity>)
        requires
            old(self).wf(),
        ensures
            final(self).wf(),
            old(self).next_id == u32::MAX ==> e is None && *final(self) == *old(self),
            old(self).next_id < u32::MAX ==> e == Some(Entity { id: old(self).next_id })
                && final(self).actors@ == old(self).actors@.push(Actor::bare(e.unwrap()))
                && *final(self) == (World {
                actors: final(self).actors,
                next_id: (old(self).next_id + 1) as u32,
                ..*old(self)
            }),
    {
        if self.next_id == u32::MAX {
            return None;
        }
        let entity: Entity = Entity { id: self.next_id };
        self.actors.push(Actor::new(entity));
        self.next_id = self.next_id + 1;
        Some(entity)
    }

    /// The row of the actor with identifier `e`.
    pub fn find(&self, e: Entity) -> (row: Option<usize>)
        ensures
            match row {
                Some(i) => self.has(e) && self.row(e) == i && self.is_row_of(i as int, e),
                None => !self.has(e),
            },
    {
        let mut i: usize = 0;
        while i < self.actors.len()
            invariant
                i <= self.actors.len(),
                forall|k: int| 0 <= k < i ==> self.actors[k].entity != e,
            decreases self.actors.len() - i,
        {
            if self.actors[i].entity.id == e.id {
                proof {
                    lemma_row_is_first(*self, i as int, e);
                }
                return Some(i);
            }
            i += 1;
        }
        None
    }
}

/// The first row of an actor with identifier `e` is the row of `e`.
pub proof fn lemma_row_is_first(w: World, i: int, e: Entity)
    requires
        w.is_row_of(i, e),
    ensures
        w.has(e),
        w.row(e) == i,
{
    let j = w.row(e);
    assert(w.is_row_of(j, e));
    if j < i {
        assert(w.actors[j].entity != e);
    }
    if i < j {
        assert(w.actors[i].entity != e);
    }
}

/// Two tables whose actors have the same identifiers, row by row, find
/// every identifier in the same row.
pub proof fn lemma_same_rows(a: World, b: World)
    requires
        a.actors.len() == b.actors.len(),
        forall|i: int| 0 <= i < a.actors.len() ==> (#[trigger] a.actors[i]).entity == b.actors[i].entity,
    ensures
        forall|e: Entity| a.has(e) == b.has(e),
        forall|e: Entity| a.has(e) ==> a.row(e) == b.row(e),
{
    assert forall|e: Entity| a.has(e) == b.has(e) by {
        if a.has(e) {
            let i = choose|i: int| 0 <= i < a.actors.len() && (#[trigger] a.actors[i]).entity == e;
            assert(b.actors[i].entity == e);
        }
        if b.has(e) {
            let i = choose|i: int| 0 <= i < b.actors.len() && (#[trigger] b.actors[i]).entity == e;
            assert(a.actors[i].entity == e);
        }
    }
    assert forall|e: Entity| a.has(e) implies a.row(e) == b.row(e) by {
        lemma_row_exists(a, e);
        let i = a.row(e);
        assert(a.is_row_of(i, e));
        assert(b.is_row_of(i, e)) by {
            assert(b.actors[i].entity == e);
            assert forall|k: int| 0 <= k < i implies (#[trigger] b.actors[k]).entity != e by {
                assert(a.actors[k].entity != e);
            }
        }
        lemma_row_is_first(b, i, e);
    }
}

/// An identifier that some actor has is found in its first row.
pub proof fn lemma_row_exists(w: World, e: Entity)
    requires
        w.has(e),
    ensures
        w.is_row_of(w.row(e), e),
{
    let i = choose|i: int| 0 <= i < w.actors.len() && (#[trigger] w.actors[i]).entity == e;
    lemma_first_row(w, e, i);
}

/// Below any row with identifier `e` there is a first one.
pub proof fn lemma_first_row(w: World, e: Entity, i: int)
    requires
        0 <= i < w.actors.len(),
        w.actors[i].entity == e,
    ensures
        exists|j: int| w.is_row_of(j, e),
        w.is_row_of(w.row(e), e),
    decreases i,
{
    if forall|k: int| 0 <= k < i ==> (#[trigger] w.actors[k]).entity != e {
        assert(w.is_row_of(i, e));
    } else {
        let k = choose|k: int| 0 <= k < i && (#[trigger] w.actors[k]).entity == e;
        lemma_first_row(w, e, k);
    }
}

/// A world stays well formed when its actors keep their identifiers, their
/// player tags and what they see and remember, keep their places or lose
/// them, and the map and the identifier counter stay as they are.
pub proof fn lemma_still_well_formed(a: World, b: World)
    requires
        a.wf(),
        b.map == a.map,
        b.player_pos == a.player_pos,
        b.next_id == a.next_id,
        b.actors.len() == a.actors.len(),
        forall|i: int|
            0 <= i < a.actors.len() ==> {
                &&& (#[trigger] b.actors[i]).entity == a.actors[i].entity
                &&& b.actors[i].player == a.actors[i].player
                &&& (b.actors[i].position == a.actors[i].position || b.actors[i].position is None)
                &&& b.actors[i].viewshed == a.actors[i].viewshed
                &&& b.actors[i].monster == a.actors[i].monster
            },
    ensures
        b.wf(),
{
    assert forall|k: int| 0 <= k < b.actors.len() implies (#[trigger] b.actors[k]).fits(&b.map) by {
        assert(a.actors[k].fits(&a.map));
    }
    assert forall|k: int| 0 <= k < b.actors.len() implies (#[trigger] b.actors[k]).entity.id < b.next_id by {
        assert(a.actors[k].entity.id < a.next_id);
    }
    assert forall|i: int, j: int| 0 <= i < j < b.actors.len() implies (#[trigger] b.actors[i]).entity != (
    #[trigger] b.actors[j]).entity by {
        assert(a.actors[i].entity != a.actors[j].entity);
    }
    assert forall|i: int, j: int|
        0 <= i < b.actors.len() && 0 <= j < b.actors.len() && (#[trigger] b.actors[i]).player is Some && (
        #[trigger] b.actors[j]).player is Some implies i == j by {
        assert(a.actors[i].player is Some);
        assert(a.actors[j].player is Some);
    }
}

} // verus!
