//! The turn scheduler: which phase follows which, and what runs in each.

use vstd::prelude::*;
use crate::components::NavigationPath;
use crate::damage_system::{delete_the_dead, leaves, lemma_survivors, DamageSystem};
use crate::inventory_system::ItemCollectionSystem;
use crate::map::GameMap;
use crate::map_indexing_system::MapIndexingSystem;
use crate::melee_combat_system::MeleeCombatSystem;
use crate::monster_ai_system::{lemma_hostiles_keep, MonsterAI};
use crate::player::{phase_after_input, player_input, Intent};
use crate::visibility_system::VisibilitySystem;
use crate::world::World;

verus! {

/// Debug switch: while it is on, the whole map is visible.
#[derive(Clone, Copy, Debug, PartialEq, Eq, Structural)]
pub struct GodMode(pub bool);

impl Default for GodMode {
    /// The debug switch is off.
    fn default() -> (g: GodMode)
        ensures
            !g.0,
    {
        GodMode(false)
    }
}

/// The phase of the scheduler.
#[derive(Clone, Copy, Debug, PartialEq, Eq, Structural)]
pub enum RunState {
    AwaitingInput,
    PreRun,
    PlayerTurn,
    MonsterTurn,
}

/// The simulation: the world and everything in it.
#[derive(Clone, Debug, PartialEq, Eq)]
pub struct State {
    pub ecs: World,
}

/// The phase that follows `phase`. The first tick leads to waiting for the
/// player. The player's intent leads to the player's turn, the player's
/// turn to the hostile turn, and the hostile turn back to waiting.
pub open spec fn next_phase(phase: RunState, intent: Intent) -> RunState {
    match phase {
        RunState::PreRun => RunState::AwaitingInput,
        RunState::AwaitingInput => phase_after_input(intent),
        RunState::PlayerTurn => RunState::MonsterTurn,
        RunState::MonsterTurn => RunState::AwaitingInput,
    }
}

/// Whatever was revealed of `before` is revealed of `after`.
pub open spec fn reveal_kept(before: GameMap, after: GameMap) -> bool {
    &&& after.revealed_tiles.len() == before.revealed_tiles.len()
    &&& forall|idx: int|
        0 <= idx < before.revealed_tiles.len() && before.revealed_tiles[idx]
            ==> #[trigger] after.revealed_tiles[idx]
}

impl World {
    /// Whether `after` is `self` once all systems have run, one after the
    /// other: visibility, hostile behaviour, the map's bookkeeping, melee,
    /// damage, picking up.
    pub open spec fn ran_systems(&self, after: World) -> bool {
        exists|a: World, b: World, c: World, d: World, e: World|
            {
                &&& #[trigger] self.seen(a)
                &&& #[trigger] a.hostile_phase(b)
                &&& #[trigger] b.indexed(c, b.actors.len() as int)
                &&& #[trigger] c.fought(d, c.actors.len() as int, true)
                &&& #[trigger] d.suffered(e)
                &&& e.collected(after, e.actors.len() as int, true)
            }
    }

    /// Whether `after` is `self` once the phase's work is done: the
    /// player's intent is carried out while the scheduler waits for it;
    /// in any other phase all systems run.
    pub open spec fn worked(&self, after: World, intent: Intent) -> bool {
        if self.run_state == RunState::AwaitingInput {
            self.handled(after, intent)
        } else {
            self.ran_systems(after)
        }
    }

    /// Whether `after` is `self` one tick later: the phase's work is done,
    /// the next phase is entered, and the dead are removed.
    pub open spec fn ticked(&self, after: World, intent: Intent) -> bool {
        exists|done: World|
            {
                &&& #[trigger] self.worked(done, intent)
                &&& (World { run_state: next_phase(self.run_state, intent), ..done }).buried(after)
            }
    }
}

impl State {
    /// A simulation on `map` without actors, about to run its first tick.
    pub fn new(map: GameMap) -> (gs: State)
        requires
            map.wf(),
        ensures
            gs.ecs.wf(),
            gs.ecs.map == map,
            gs.ecs.actors@.len() == 0,
            gs.ecs.run_state == RunState::PreRun,
            !gs.ecs.godmode.0,
            !gs.ecs.game_over,
            gs.ecs.log.entries@.len() == 0,
            gs.ecs.melee_reach == crate::world::MELEE_REACH,
            gs.ecs.forget_distance == crate::world::FORGET_DISTANCE,
            gs.ecs.player_pos == (crate::geometry::Coord { x: 0, y: 0 }),
            gs.ecs.player_entity == (crate::components::Entity { id: 0 }),
            gs.ecs.next_id == 0,
    {
        State { ecs: World::new(map) }
    }

    /// Runs all systems once, in their order. `find_path` searches a path
    /// on the map between two tiles.
    pub fn run_systems<F: Fn(&GameMap, usize, usize) -> NavigationPath>(&mut self, find_path: &F)
        requires
            old(self).ecs.wf(),
            forall|m: &GameMap, s: usize, g: usize|
                m.wf() && s < m.tiles.len() && g < m.tiles.len() ==> #[trigger] find_path.requires(
                    (m, s, g),
                ),
        ensures
            final(self).ecs.wf(),
            old(self).ecs.ran_systems(final(self).ecs),
            final(self).ecs.run_state == old(self).ecs.run_state,
            reveal_kept(old(self).ecs.map, final(self).ecs.map),
    {
        let mut vis = VisibilitySystem {  };
        vis.run(&mut self.ecs);
        let ghost a = self.ecs;

        let mut mob = MonsterAI {  };
        mob.run(&mut self.ecs, find_path);
        let ghost b = self.ecs;
        proof {
            if a.run_state == RunState::MonsterTurn {
                lemma_hostiles_keep(a, b, a.actors.len() as nat);
            }
        }

        let mut mapindex = MapIndexingSystem {  };
        mapindex.run(&mut self.ecs);
        let ghost c = self.ecs;

        let mut melee = MeleeCombatSystem {  };
        melee.run(&mut self.ecs);
        let ghost d = self.ecs;

        let mut damage = DamageSystem {  };
        damage.run(&mut self.ecs);
        let ghost e = self.ecs;

        let mut pickup = ItemCollectionSystem {  };
        pickup.run(&mut self.ecs);
        proof {
            assert(old(self).ecs.seen(a));
            assert(a.hostile_phase(b));
            assert(b.indexed(c, b.actors.len() as int));
            assert(c.fought(d, c.actors.len() as int, true));
            assert(d.suffered(e));
            assert(e.collected(self.ecs, e.actors.len() as int, true));
        }
    }

    /// One tick of the simulation: the work of the current phase, the step
    /// to the next phase, and the death sweep.
    pub fn tick<F: Fn(&GameMap, usize, usize) -> NavigationPath>(&mut self, intent: Intent, find_path: &F)
        requires
            old(self).ecs.wf(),
            forall|m: &GameMap, s: usize, g: usize|
                m.wf() && s < m.tiles.len() && g < m.tiles.len() ==> #[trigger] find_path.requires(
                    (m, s, g),
                ),
        ensures
            final(self).ecs.wf(),
            final(self).ecs.run_state == next_phase(old(self).ecs.run_state, intent),
            old(self).ecs.ticked(final(self).ecs, intent),
            reveal_kept(old(self).ecs.map, final(self).ecs.map),
            forall|j: int| 0 <= j < final(self).ecs.actors.len() ==> !leaves(#[trigger] final(self).ecs.actors[j]),
    {
        let newrunstate: RunState = match self.ecs.run_state {
            RunState::PreRun => {
                self.run_systems(find_path);
                RunState::AwaitingInput
            },
            RunState::AwaitingInput => player_input(self, intent),
            RunState::PlayerTurn => {
                self.run_systems(find_path);
                RunState::MonsterTurn
            },
            RunState::MonsterTurn => {
                self.run_systems(find_path);
                RunState::AwaitingInput
            },
        };
        let ghost done = self.ecs;
        assert(old(self).ecs.worked(done, intent));
        assert(reveal_kept(old(self).ecs.map, done.map)) by {
            if old(self).ecs.run_state == RunState::AwaitingInput {
                lemma_input_keeps_map(old(self).ecs, done, intent);
            }
        }
        self.ecs.run_state = newrunstate;
        let ghost entered = self.ecs;
        delete_the_dead(&mut self.ecs);
        proof {
            assert(entered == (World { run_state: next_phase(old(self).ecs.run_state, intent), ..done }));
            lemma_survivors(entered.actors@);
        }
    }
}

/// The player's intent leaves the map as it is.
pub proof fn lemma_input_keeps_map(before: World, after: World, intent: Intent)
    requires
        before.handled(after, intent),
    ensures
        after.map == before.map,
{
    match intent {
        Intent::Move { dx, dy } => {
            if exists|i: int| before.is_mover(i) {
                let i = choose|i: int| before.is_mover(i);
                assert(before.moved(after, i, dx as int, dy as int));
            }
        },
        _ => {},
    }
}

/// In the very first phase and in the player's and the hostile turn the
/// next phase does not depend on the player's intent. Between two waits
/// for the player lie the player's turn and then the hostile turn, once
/// each, and only an intent ends a wait.
pub proof fn lemma_turn_cycle(intent: Intent, while_player: Intent, while_hostile: Intent)
    ensures
        next_phase(RunState::PreRun, intent) == RunState::AwaitingInput,
        next_phase(RunState::AwaitingInput, Intent::Idle) == RunState::AwaitingInput,
        !(intent is Idle) ==> {
            let first = next_phase(RunState::AwaitingInput, intent);
            let second = next_phase(first, while_player);
            let third = next_phase(second, while_hostile);
            &&& first == RunState::PlayerTurn
            &&& second == RunState::MonsterTurn
            &&& third == RunState::AwaitingInput
        },
{
}

} // verus!
