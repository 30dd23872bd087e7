//! What the player's intents do to the world.

use vstd::prelude::*;
use crate::components::{Entity, Player, Position, Viewshed, WantsToMelee, WantsToPickupItem};
use crate::gamelog::LogEntry;
use crate::geometry::Coord;
use crate::state::{GodMode, RunState, State};
use crate::world::{Actor, World};

verus! {

/// What the player asks for in one tick.
#[derive(Clone, Copy, Debug, PartialEq, Eq, Structural)]
pub enum Intent {
    /// Nothing was asked for.
    Idle,
    /// Step, or attack, in the direction `(dx, dy)`.
    Move { dx: i32, dy: i32 },
    /// Pick up what lies under the player.
    PickUp,
    /// Switch the debug view of the whole map on or off.
    ToggleGodMode,
}

impl World {
    /// Whether `e` can be attacked: some actor has this identifier, combat
    /// statistics and a name.
    pub open spec fn attackable(&self, e: Entity) -> bool {
        exists|i: int|
            0 <= i < self.actors.len() && (#[trigger] self.actors[i]).entity == e
                && self.actors[i].combat_stats is Some && self.actors[i].name is Some
    }

    /// The first of `content`, from position `k` on, that can be attacked.
    pub open spec fn first_attackable(&self, content: Seq<Entity>, k: int) -> Option<Entity>
        decreases content.len() - k,
    {
        if k < 0 || k >= content.len() {
            None
        } else if self.attackable(content[k]) {
            Some(content[k])
        } else {
            self.first_attackable(content, k + 1)
        }
    }

    /// Whether actor `i` is moved by the player's intents: it carries the
    /// player tag, a position and a viewshed.
    pub open spec fn is_mover(&self, i: int) -> bool {
        &&& 0 <= i < self.actors.len()
        &&& self.actors[i].player is Some
        &&& self.actors[i].position is Some
        &&& self.actors[i].viewshed is Some
    }

    /// Whether `after` is what a move by `(dx, dy)` of actor `i` makes of
    /// `self`. A move that would leave the playing field changes nothing. A
    /// move onto a cell with someone who can be attacked becomes the wish
    /// to attack the first such actor. Any other move takes place where the
    /// cell is free, or the debug switch is on, and marks the viewshed for
    /// a new computation.
    pub open spec fn moved(&self, after: World, i: int, dx: int, dy: int) -> bool {
        let a = self.actors[i];
        let x = a.position.unwrap().x + dx;
        let y = a.position.unwrap().y + dy;
        let dest = self.map.index_of(x, y);
        if x < 1 || x > self.map.width - 1 || y < 1 || y > self.map.height - 1 {
            after == *self
        } else {
            match self.first_attackable(self.map.tile_content[dest]@, 0) {
                Some(target) => {
                    &&& after == (World { actors: after.actors, ..*self })
                    &&& after.actors.len() == self.actors.len()
                    &&& forall|j: int|
                        0 <= j < self.actors.len() && j != i ==> after.actors[j] == self.actors[j]
                    &&& after.actors[i] == (Actor { wants_to_melee: Some(WantsToMelee { target }), ..a })
                },
                None => if !self.map.blocked[dest] || self.godmode.0 {
                    let steps = a.player.unwrap().number_of_moves;
                    &&& after == (World {
                        actors: after.actors,
                        player_pos: Coord { x: x as i32, y: y as i32 },
                        ..*self
                    })
                    &&& after.actors.len() == self.actors.len()
                    &&& forall|j: int|
                        0 <= j < self.actors.len() && j != i ==> after.actors[j] == self.actors[j]
                    &&& after.actors[i] == (Actor {
                        position: Some(Position { x: x as i32, y: y as i32 }),
                        viewshed: Some(Viewshed { dirty: true, ..a.viewshed.unwrap() }),
                        player: Some(
                            Player {
                                number_of_moves: if steps < i32::MAX {
                                    (steps + 1) as i32
                                } else {
                                    steps
                                },
                            },
                        ),
                        ..a
                    })
                } else {
                    after == *self
                },
            }
        }
    }

    /// Whether `after` is what a move of the player by `(dx, dy)` makes of
    /// `self`: the actor that carries the player tag moves, and nothing
    /// happens where there is none.
    pub open spec fn player_moved(&self, after: World, dx: int, dy: int) -> bool {
        &&& forall|i: int| #![trigger self.is_mover(i)] self.is_mover(i) ==> self.moved(after, i, dx, dy)
        &&& (forall|i: int| !self.is_mover(i)) ==> after == *self
    }

    /// Whether actor `k` is an item that lies where the player stands.
    pub open spec fn lies_here(&self, k: int) -> bool {
        &&& 0 <= k < self.actors.len()
        &&& self.actors[k].item is Some
        &&& self.actors[k].position matches Some(p)
        &&& p.x == self.player_pos.x
        &&& p.y == self.player_pos.y
    }

    /// The last of the first `n` actors that is an item and lies where the
    /// player stands.
    pub open spec fn item_here(&self, n: int) -> Option<Entity>
        decreases n,
    {
        if n <= 0 {
            None
        } else if self.lies_here(n - 1) {
            Some(self.actors[n - 1].entity)
        } else {
            self.item_here(n - 1)
        }
    }

    /// Whether `after` is `self` once the player has asked to pick up what
    /// lies under it. Where nothing lies there, the log says so. Where an
    /// item does, the player's actor gets the wish to pick it up; nothing
    /// happens where the player's actor has left the table.
    pub open spec fn asked_to_pick(&self, after: World) -> bool {
        match self.item_here(self.actors.len() as int) {
            None => {
                &&& after == (World { log: after.log, ..*self })
                &&& after.log.entries@ == self.log.entries@.push(LogEntry::NothingToPickUp)
            },
            Some(item) => if self.has(self.player_entity) {
                let row = self.row(self.player_entity);
                &&& after == (World { actors: after.actors, ..*self })
                &&& after.actors.len() == self.actors.len()
                &&& forall|j: int|
                    0 <= j < self.actors.len() && j != row ==> after.actors[j] == self.actors[j]
                &&& after.actors[row] == (Actor {
                    wants_to_pickup: Some(WantsToPickupItem { collected_by: self.player_entity, item }),
                    ..self.actors[row]
                })
            } else {
                after == *self
            },
        }
    }

    /// Whether `after` is what the player's `intent` makes of `self`.
    pub open spec fn handled(&self, after: World, intent: Intent) -> bool {
        match intent {
            Intent::Idle => after == *self,
            Intent::Move { dx, dy } => self.player_moved(after, dx as int, dy as int),
            Intent::PickUp => self.asked_to_pick(after),
            Intent::ToggleGodMode => after == (World { godmode: GodMode(!self.godmode.0), ..*self }),
        }
    }

    /// The row of the actor that the player's intents move.
    pub fn mover(&self) -> (row: Option<usize>)
        ensures
            match row {
                Some(i) => self.is_mover(i as int) && forall|k: int| 0 <= k < i ==> !self.is_mover(k),
                None => forall|k: int| !self.is_mover(k),
            },
    {
        let mut i: usize = 0;
        while i < self.actors.len()
            invariant
                i <= self.actors.len(),
                forall|k: int| 0 <= k < i ==> !self.is_mover(k),
            decreases self.actors.len() - i,
        {
            let a = &self.actors[i];
            if a.player.is_some() && a.position.is_some() && a.viewshed.is_some() {
                return Some(i);
            }
            i += 1;
        }
        None
    }

    /// The first actor on tile `dest` that can be attacked.
    pub fn melee_target(&self, dest: usize) -> (target: Option<Entity>)
        requires
            self.wf(),
            dest < self.map.tiles.len(),
        ensures
            target == self.first_attackable(self.map.tile_content[dest as int]@, 0),
    {
        let mut k: usize = 0;
        while k < self.map.tile_content[dest].len()
            invariant
                self.wf(),
                dest < self.map.tiles.len(),
                k <= self.map.tile_content[dest as int].len(),
                self.first_attackable(self.map.tile_content[dest as int]@, 0)
                    == self.first_attackable(self.map.tile_content[dest as int]@, k as int),
            decreases self.map.tile_content[dest as int].len() - k,
        {
            let e: Entity = self.map.tile_content[dest][k];
            if let Some(row) = self.find(e) {
                if self.actors[row].combat_stats.is_some() && self.actors[row].name.is_some() {
                    return Some(e);
                }
            }
            k += 1;
        }
        None
    }
}

/// Moves the player by `(delta_x, delta_y)`, or turns the move into an
/// attack.
pub fn try_move_player(delta_x: i32, delta_y: i32, gs: &mut State)
    requires
        old(gs).ecs.wf(),
    ensures
        final(gs).ecs.wf(),
        old(gs).ecs.player_moved(final(gs).ecs, delta_x as int, delta_y as int),
{
    let row: usize = match gs.ecs.mover() {
        Some(row) => row,
        None => {
            return ;
        },
    };
    let here: Coord = match &gs.ecs.actors[row].position {
        Some(p) => p.to_point(),
        None => {
            return ;
        },
    };
    let x: i64 = here.x as i64 + delta_x as i64;
    let y: i64 = here.y as i64 + delta_y as i64;
    if x < 1 || x > gs.ecs.map.width as i64 - 1 || y < 1 || y > gs.ecs.map.height as i64 - 1 {
        return ;
    }
    let dest: usize = gs.ecs.map.map_index(x as i32, y as i32);
    match gs.ecs.melee_target(dest) {
        Some(target) => {
            gs.ecs.actors[row].wants_to_melee = Some(WantsToMelee { target });
        },
        None => {
            if !gs.ecs.map.blocked[dest] || gs.ecs.godmode.0 {
                let actor = &mut gs.ecs.actors[row];
                actor.position = Some(Position { x: x as i32, y: y as i32 });
                if let Some(viewshed) = &mut actor.viewshed {
                    viewshed.dirty = true;
                }
                if let Some(player) = &mut actor.player {
                    if player.number_of_moves < i32::MAX {
                        player.number_of_moves = player.number_of_moves + 1;
                    }
                }
                gs.ecs.player_pos = Coord { x: x as i32, y: y as i32 };
            }
        },
    }
}

/// Switches the debug view of the whole map on or off.
pub fn toggle_godmode(gs: &mut State)
    ensures
        *final(gs) == (State {
            ecs: World { godmode: GodMode(!old(gs).ecs.godmode.0), ..old(gs).ecs },
        }),
{
    if !gs.ecs.godmode.0 {
        gs.ecs.godmode = GodMode(true);
    } else {
        gs.ecs.godmode = GodMode(false);
    }
}

/// The scheduler's phase after the player's `intent`: it goes on waiting
/// where nothing was asked for, and lets the player's turn begin after
/// anything else.
pub open spec fn phase_after_input(intent: Intent) -> RunState {
    if intent is Idle {
        RunState::AwaitingInput
    } else {
        RunState::PlayerTurn
    }
}

/// Carries out the player's `intent` and says which phase comes next.
pub fn player_input(gs: &mut State, intent: Intent) -> (next: RunState)
    requires
        old(gs).ecs.wf(),
    ensures
        final(gs).ecs.wf(),
        next == phase_after_input(intent),
        old(gs).ecs.handled(final(gs).ecs, intent),
{
    match intent {
        Intent::Idle => {
            return RunState::AwaitingInput;
        },
        Intent::PickUp => get_item(&mut gs.ecs),
        Intent::Move { dx, dy } => try_move_player(dx, dy, gs),
        Intent::ToggleGodMode => toggle_godmode(gs),
    }
    RunState::PlayerTurn
}

/// Asks to pick up the item that lies where the player stands.
pub fn get_item(ecs: &mut World)
    ensures
        old(ecs).asked_to_pick(*final(ecs)),
        old(ecs).wf() ==> final(ecs).wf(),
{
    let mut target_item: Option<Entity> = None;
    let mut k: usize = 0;
    while k < ecs.actors.len()
        invariant
            k <= ecs.actors.len(),
            *ecs == *old(ecs),
            target_item == ecs.item_here(k as int),
        decreases ecs.actors.len() - k,
    {
        let a = &ecs.actors[k];
        if a.item.is_some() {
            if let Some(p) = &a.position {
                if p.x == ecs.player_pos.x && p.y == ecs.player_pos.y {
                    target_item = Some(a.entity);
                }
            }
        }
        k += 1;
    }
    match target_item {
        None => {
            ecs.log.entries.push(LogEntry::NothingToPickUp);
        },
        Some(item) => {
            let collected_by: Entity = ecs.player_entity;
            if let Some(row) = ecs.find(collected_by) {
                ecs.actors[row].wants_to_pickup = Some(WantsToPickupItem { collected_by, item });
                proof {
                    if old(ecs).wf() {
                        crate::world::lemma_still_well_formed(*old(ecs), *ecs);
                    }
                }
            }
        },
    }
}

} // verus!
