//! The behaviour of hostile actors: attack the player when next to it,
//! remember where it was seen, walk there, give up when it is far away.

use vstd::prelude::*;
use crate::components::{Monster, NavigationPath, Position, Viewshed, WantsToMelee};
use crate::geometry::{closer_than, farther_than, Coord};
use crate::map::GameMap;
use crate::state::RunState;
use crate::world::{Actor, World};

verus! {

/// The system that lets hostiles act.
pub struct MonsterAI {
}

/// What an actor does in the hostile phase.
#[derive(Clone, Copy, Debug, PartialEq, Eq, Structural)]
pub enum HostilePlan {
    /// The actor is no hostile: it lacks the memory, a position or a viewshed.
    Bystander,
    /// The player is within reach: attack, and do not move.
    Attack,
    /// The hostile remembers no position of the player: stay.
    Rest,
    /// The hostile stands on the cell it remembers and does not see the
    /// player from there: stay, and give up the path.
    Arrived,
    /// Walk toward the remembered position along a path that has to be
    /// searched first, from tile `start` to tile `goal`.
    Seek { start: usize, goal: usize },
    /// Walk toward the remembered position along the path found earlier.
    Follow,
}

/// Whether `route` has a next step after the cell it starts from, and that
/// step is a tile of `map`.
pub open spec fn walkable(route: NavigationPath, map: GameMap) -> bool {
    route.success && route.steps@.len() > 1 && route.steps@[1] < map.tiles.len()
}

impl World {
    /// Whether actor `i` takes part in the hostile phase.
    pub open spec fn is_hostile(&self, i: int) -> bool {
        &&& 0 <= i < self.actors.len()
        &&& self.actors[i].monster is Some
        &&& self.actors[i].position is Some
        &&& self.actors[i].viewshed is Some
    }

    /// The cell that actor `i` stands on.
    pub open spec fn place_of(&self, i: int) -> Coord {
        self.actors[i].position.unwrap().point()
    }

    /// Whether the player is close enough for actor `i` to attack.
    pub open spec fn in_reach(&self, i: int) -> bool {
        closer_than(self.place_of(i), self.player_pos, self.melee_reach)
    }

    /// Whether the player stands on a cell that actor `i` sees.
    pub open spec fn sees_player(&self, i: int) -> bool {
        self.actors[i].viewshed.unwrap().visible_tiles@.contains(self.player_pos)
    }

    /// What hostile `i` remembers of the player once it has looked around:
    /// the player's cell while it sees the player; nothing once the player
    /// is out of sight and beyond the forget distance; else what it
    /// remembered before.
    pub open spec fn memory_after_look(&self, i: int) -> Option<Coord> {
        if self.sees_player(i) {
            Some(self.player_pos)
        } else if farther_than(self.place_of(i), self.player_pos, self.forget_distance) {
            None
        } else {
            self.actors[i].monster.unwrap().last_known_player_pos
        }
    }

    /// Whether hostile `i` has to search a path before it walks: it has
    /// none, or has used it up, or sees the player.
    pub open spec fn needs_path(&self, i: int) -> bool {
        let cached = self.actors[i].monster.unwrap().last_pathfind;
        cached is None || cached.unwrap().steps@.len() <= 1 || self.sees_player(i)
    }

    /// What actor `i` does in the hostile phase.
    pub open spec fn plan(&self, i: int) -> HostilePlan {
        if !self.is_hostile(i) {
            HostilePlan::Bystander
        } else if self.in_reach(i) {
            HostilePlan::Attack
        } else {
            match self.memory_after_look(i) {
                None => HostilePlan::Rest,
                Some(goal) => if goal == self.place_of(i) {
                    HostilePlan::Arrived
                } else if self.needs_path(i) {
                    HostilePlan::Seek {
                        start: self.map.index_of(
                            self.place_of(i).x as int,
                            self.place_of(i).y as int,
                        ) as usize,
                        goal: self.map.index_of(goal.x as int, goal.y as int) as usize,
                    }
                } else {
                    HostilePlan::Follow
                },
            }
        }
    }

    /// The path that hostile `i` walks along: the one just searched where
    /// the plan asked for a search, else the one it kept.
    pub open spec fn route_of(&self, i: int, fresh: Option<NavigationPath>) -> NavigationPath {
        if self.plan(i) is Seek {
            fresh.unwrap()
        } else {
            self.actors[i].monster.unwrap().last_pathfind.unwrap()
        }
    }

    /// Whether `after` is what the hostile phase makes of `self` for actor
    /// `i`, where `fresh` is the path found for it if its plan asked for one.
    pub open spec fn hostile_stepped(&self, after: World, i: int, fresh: Option<NavigationPath>) -> bool {
        let a = self.actors[i];
        let b = after.actors[i];
        &&& after == (World { actors: after.actors, map: after.map, ..*self })
        &&& after.actors.len() == self.actors.len()
        &&& forall|j: int| 0 <= j < self.actors.len() && j != i ==> after.actors[j] == self.actors[j]
        &&& match self.plan(i) {
            HostilePlan::Bystander => b == a && after.map == self.map,
            HostilePlan::Attack => {
                &&& after.map == self.map
                &&& b == (Actor {
                    wants_to_melee: Some(WantsToMelee { target: self.player_entity }),
                    monster: Some(
                        Monster { last_known_player_pos: Some(self.player_pos), ..a.monster.unwrap() },
                    ),
                    ..a
                })
            },
            HostilePlan::Rest => {
                &&& after.map == self.map
                &&& b == (Actor {
                    monster: Some(Monster { last_known_player_pos: None, ..a.monster.unwrap() }),
                    ..a
                })
            },
            HostilePlan::Arrived => {
                &&& after.map == self.map
                &&& b == (Actor {
                    monster: Some(
                        Monster {
                            last_known_player_pos: self.memory_after_look(i),
                            last_pathfind: None,
                        },
                    ),
                    ..a
                })
            },
            _ => {
                let route = self.route_of(i, fresh);
                let from = self.map.index_of(self.place_of(i).x as int, self.place_of(i).y as int);
                if walkable(route, self.map) {
                    let to = route.steps@[1] as int;
                    let kept = b.monster.unwrap().last_pathfind.unwrap().steps;
                    &&& after.map == (GameMap { blocked: after.map.blocked, ..self.map })
                    &&& after.map.blocked@ == self.map.blocked@.update(from, false).update(to, true)
                    &&& kept@ == route.steps@.remove(1)
                    &&& b.position is Some
                    &&& b.position.unwrap().x == to % (self.map.width as int)
                    &&& b.position.unwrap().y == to / (self.map.width as int)
                    &&& b == (Actor {
                        position: b.position,
                        viewshed: Some(Viewshed { dirty: true, ..a.viewshed.unwrap() }),
                        monster: Some(
                            Monster {
                                last_known_player_pos: self.memory_after_look(i),
                                last_pathfind: Some(NavigationPath { steps: kept, ..route }),
                            },
                        ),
                        ..a
                    })
                } else {
                    &&& after.map == self.map
                    &&& b == (Actor {
                        monster: Some(
                            Monster {
                                last_known_player_pos: self.memory_after_look(i),
                                last_pathfind: None,
                            },
                        ),
                        ..a
                    })
                }
            },
        }
    }

    /// Whether `after` comes from `self` by letting the first `n` actors of
    /// the table act as hostiles, one after the other, each with some path
    /// where its plan asked for one.
    pub open spec fn hostiles_acted(&self, after: World, n: nat) -> bool
        decreases n,
    {
        if n == 0 {
            after == *self
        } else {
            exists|mid: World, fresh: Option<NavigationPath>|
                {
                    &&& self.hostiles_acted(mid, (n - 1) as nat)
                    &&& mid.plan(n - 1) is Seek ==> fresh is Some
                    &&& #[trigger] mid.hostile_stepped(after, n - 1, fresh)
                }
        }
    }

    /// Whether `after` is `self` once the hostile phase has run: in the
    /// hostile turn every actor has acted, in any other phase nothing has
    /// happened.
    pub open spec fn hostile_phase(&self, after: World) -> bool {
        if self.run_state == RunState::MonsterTurn {
            self.hostiles_acted(after, self.actors.len() as nat)
        } else {
            after == *self
        }
    }

    /// What actor `i` does in the hostile phase.
    pub fn hostile_plan(&self, i: usize) -> (plan: HostilePlan)
        requires
            self.wf(),
            i < self.actors.len(),
        ensures
            plan == self.plan(i as int),
            plan matches HostilePlan::Seek { start, goal } ==> start < self.map.tiles.len() && goal
                < self.map.tiles.len(),
    {
        let a = &self.actors[i];
        match (&a.monster, &a.position, &a.viewshed) {
            (Some(monster), Some(position), Some(viewshed)) => {
                let here: Coord = position.to_point();
                if here.is_closer_than(self.player_pos, self.melee_reach) {
                    return HostilePlan::Attack;
                }
                let seen: bool = viewshed.sees(self.player_pos);
                let memory: Option<Coord> = if seen {
                    Some(self.player_pos)
                } else if here.is_farther_than(self.player_pos, self.forget_distance) {
                    None
                } else {
                    monster.last_known_player_pos
                };
                match memory {
                    None => HostilePlan::Rest,
                    Some(goal) => {
                        let search: bool = match &monster.last_pathfind {
                            None => true,
                            Some(path) => path.steps.len() <= 1 || seen,
                        };
                        if goal.x == here.x && goal.y == here.y {
                            HostilePlan::Arrived
                        } else if search {
                            HostilePlan::Seek {
                                start: self.map.map_index(here.x, here.y),
                                goal: self.map.map_index(goal.x, goal.y),
                            }
                        } else {
                            HostilePlan::Follow
                        }
                    },
                }
            },
            _ => HostilePlan::Bystander,
        }
    }

    /// What hostile `i` remembers of the player once it has looked around.
    pub fn look(&self, i: usize) -> (memory: Option<Coord>)
        requires
            self.wf(),
            self.is_hostile(i as int),
        ensures
            memory == self.memory_after_look(i as int),
    {
        let a = &self.actors[i];
        match (&a.monster, &a.position, &a.viewshed) {
            (Some(monster), Some(position), Some(viewshed)) => {
                if viewshed.sees(self.player_pos) {
                    Some(self.player_pos)
                } else if position.to_point().is_farther_than(self.player_pos, self.forget_distance) {
                    None
                } else {
                    monster.last_known_player_pos
                }
            },
            _ => None,
        }
    }

    /// Lets actor `i` act as a hostile. `fresh` is the path from the plan's
    /// `start` to its `goal`, where the plan is to seek.
    pub fn hostile_step(&mut self, i: usize, fresh: Option<NavigationPath>)
        requires
            old(self).wf(),
            i < old(self).actors.len(),
            old(self).plan(i as int) is Seek ==> fresh is Some,
        ensures
            final(self).wf(),
            old(self).hostile_stepped(*final(self), i as int, fresh),
    {
        let plan: HostilePlan = self.hostile_plan(i);
        match plan {
            HostilePlan::Bystander => {},
            HostilePlan::Attack => {
                let target = self.player_entity;
                let seen_at: Coord = self.player_pos;
                let actor = &mut self.actors[i];
                actor.wants_to_melee = Some(WantsToMelee { target });
                if let Some(monster) = &mut actor.monster {
                    monster.last_known_player_pos = Some(seen_at);
                }
            },
            HostilePlan::Rest => {
                if let Some(monster) = &mut self.actors[i].monster {
                    monster.last_known_player_pos = None;
                }
            },
            HostilePlan::Arrived => {
                let memory: Option<Coord> = self.look(i);
                if let Some(monster) = &mut self.actors[i].monster {
                    monster.last_known_player_pos = memory;
                    monster.last_pathfind = None;
                }
            },
            _ => {
                let memory: Option<Coord> = self.look(i);
                let tiles: usize = self.map.tiles.len();
                let mut next: Option<usize> = None;
                if let Some(monster) = &mut self.actors[i].monster {
                    monster.last_known_player_pos = memory;
                    if let HostilePlan::Seek { .. } = plan {
                        monster.last_pathfind = fresh;
                    }
                    if let Some(path) = &mut monster.last_pathfind {
                        if path.success && path.steps.len() > 1 && path.steps[1] < tiles {
                            next = Some(path.steps.remove(1));
                        }
                    }
                    if next.is_none() {
                        monster.last_pathfind = None;
                    }
                }
                if let Some(to) = next {
                    let here: Coord = match &self.actors[i].position {
                        Some(p) => p.to_point(),
                        None => Coord { x: 0, y: 0 },
                    };
                    let from: usize = self.map.map_index(here.x, here.y);
                    let cell: (i32, i32) = self.map.cell_of(to);
                    self.actors[i].position = Some(Position { x: cell.0, y: cell.1 });
                    if let Some(viewshed) = &mut self.actors[i].viewshed {
                        viewshed.dirty = true;
                    }
                    self.map.blocked[from] = false;
                    self.map.blocked[to] = true;
                }
            },
        }
    }
}

impl MonsterAI {
    /// The hostile phase: in the hostile turn every actor of the table acts
    /// once, in table order; in any other phase nothing happens. `find_path`
    /// searches a path on the map between two tiles.
    pub fn run<F: Fn(&GameMap, usize, usize) -> NavigationPath>(&mut self, ecs: &mut World, find_path: &F)
        requires
            old(ecs).wf(),
            forall|m: &GameMap, s: usize, g: usize|
                m.wf() && s < m.tiles.len() && g < m.tiles.len() ==> #[trigger] find_path.requires(
                    (m, s, g),
                ),
        ensures
            final(ecs).wf(),
            old(ecs).hostile_phase(*final(ecs)),
    {
        if ecs.run_state != RunState::MonsterTurn {
            return ;
        }
        let mut i: usize = 0;
        while i < ecs.actors.len()
            invariant
                ecs.wf(),
                i <= ecs.actors.len(),
                ecs.actors.len() == old(ecs).actors.len(),
                old(ecs).hostiles_acted(*ecs, i as nat),
                forall|m: &GameMap, s: usize, g: usize|
                    m.wf() && s < m.tiles.len() && g < m.tiles.len() ==> #[trigger] find_path.requires(
                        (m, s, g),
                    ),
            decreases ecs.actors.len() - i,
        {
            let ghost mid = *ecs;
            let plan: HostilePlan = ecs.hostile_plan(i);
            let fresh: Option<NavigationPath> = match plan {
                HostilePlan::Seek { start, goal } => Some(find_path(&ecs.map, start, goal)),
                _ => None,
            };
            ecs.hostile_step(i, fresh);
            assert(mid.hostile_stepped(*ecs, i as int, fresh));
            i += 1;
        }
    }
}

/// A hostile that remembers where the player was and has not arrived
/// there, and neither sees the player nor is within reach of it nor is
/// beyond the forget distance, keeps what it remembers; it walks to the
/// next cell of its path where the path has one, and stays where the path
/// has none.
pub proof fn lemma_chase_goes_on(before: World, after: World, i: int, fresh: Option<NavigationPath>)
    requires
        before.is_hostile(i),
        !before.in_reach(i),
        !before.sees_player(i),
        !farther_than(before.place_of(i), before.player_pos, before.forget_distance),
        before.actors[i].monster.unwrap().last_known_player_pos is Some,
        before.actors[i].monster.unwrap().last_known_player_pos != Some(before.place_of(i)),
        before.hostile_stepped(after, i, fresh),
    ensures
        after.actors[i].monster.unwrap().last_known_player_pos
            == before.actors[i].monster.unwrap().last_known_player_pos,
        walkable(before.route_of(i, fresh), before.map) ==> {
            let to = before.route_of(i, fresh).steps@[1] as int;
            &&& after.actors[i].position.unwrap().x == to % (before.map.width as int)
            &&& after.actors[i].position.unwrap().y == to / (before.map.width as int)
            &&& after.actors[i].viewshed.unwrap().dirty
        },
        !walkable(before.route_of(i, fresh), before.map) ==> {
            &&& after.actors[i].position == before.actors[i].position
            &&& after.actors[i].monster.unwrap().last_pathfind is None
        },
{
}

/// A hostile that has arrived on the cell it remembers, and neither sees
/// the player nor is within reach of it nor is beyond the forget distance,
/// starts no move of its own: it stays where it is, gives up its path,
/// and nothing else of it or of the map changes, whatever the path search
/// would have found.
pub proof fn lemma_chase_ends_on_arrival(before: World, after: World, i: int, fresh: Option<NavigationPath>)
    requires
        before.is_hostile(i),
        !before.in_reach(i),
        !before.sees_player(i),
        !farther_than(before.place_of(i), before.player_pos, before.forget_distance),
        before.actors[i].monster.unwrap().last_known_player_pos == Some(before.place_of(i)),
        before.hostile_stepped(after, i, fresh),
    ensures
        after.actors[i].position == before.actors[i].position,
        after.actors[i].viewshed == before.actors[i].viewshed,
        after.actors[i].wants_to_melee == before.actors[i].wants_to_melee,
        after.actors[i].monster.unwrap().last_pathfind is None,
        after.actors[i].monster.unwrap().last_known_player_pos == Some(before.place_of(i)),
        after.map == before.map,
{
}

/// A hostile that does not see the player and is beyond the forget distance
/// forgets where the player was and does not move.
pub proof fn lemma_chase_is_given_up(before: World, after: World, i: int, fresh: Option<NavigationPath>)
    requires
        before.is_hostile(i),
        !before.in_reach(i),
        !before.sees_player(i),
        farther_than(before.place_of(i), before.player_pos, before.forget_distance),
        before.hostile_stepped(after, i, fresh),
    ensures
        after.actors[i].monster.unwrap().last_known_player_pos is None,
        after.actors[i].position == before.actors[i].position,
        after.map == before.map,
{
}

/// A hostile that remembers nothing of the player, does not see it and is
/// not within reach of it does not move.
pub proof fn lemma_no_move_without_memory(before: World, after: World, i: int, fresh: Option<NavigationPath>)
    requires
        before.is_hostile(i),
        !before.in_reach(i),
        !before.sees_player(i),
        before.actors[i].monster.unwrap().last_known_player_pos is None,
        before.hostile_stepped(after, i, fresh),
    ensures
        after.actors[i].monster.unwrap().last_known_player_pos is None,
        after.actors[i].position == before.actors[i].position,
        after.map == before.map,
{
}

/// A hostile within reach of the player attacks it, remembers where it
/// stands and does not move.
pub proof fn lemma_attack_in_reach(before: World, after: World, i: int, fresh: Option<NavigationPath>)
    requires
        before.is_hostile(i),
        before.in_reach(i),
        before.hostile_stepped(after, i, fresh),
    ensures
        after.actors[i].wants_to_melee == Some(WantsToMelee { target: before.player_entity }),
        after.actors[i].monster.unwrap().last_known_player_pos == Some(before.player_pos),
        after.actors[i].position == before.actors[i].position,
        after.map == before.map,
{
}

/// The hostile phase changes nothing but actors and which tiles are
/// blocked, and neither adds nor removes an actor.
pub proof fn lemma_hostiles_keep(before: World, after: World, n: nat)
    requires
        before.hostiles_acted(after, n),
    ensures
        after == (World { actors: after.actors, map: after.map, ..before }),
        after.actors.len() == before.actors.len(),
        after.map == (GameMap { blocked: after.map.blocked, ..before.map }),
    decreases n,
{
    if n > 0 {
        let (mid, fresh) = choose|mid: World, fresh: Option<NavigationPath>|
            {
                &&& before.hostiles_acted(mid, (n - 1) as nat)
                &&& mid.plan(n - 1) is Seek ==> fresh is Some
                &&& #[trigger] mid.hostile_stepped(after, n - 1, fresh)
            };
        lemma_hostiles_keep(before, mid, (n - 1) as nat);
    }
}

} // verus!
