//! Applying queued damage, and removing the dead.

use vstd::prelude::*;
use crate::components::{CombatStats, Entity, SufferDamage};
use crate::gamelog::LogEntry;
use crate::world::{lemma_still_well_formed, Actor, World};

verus! {

/// The system that applies queued damage.
pub struct DamageSystem {
}

/// The sum of the amounts.
pub open spec fn total(amounts: Seq<i32>) -> int
    decreases amounts.len(),
{
    if amounts.len() == 0 {
        0
    } else {
        total(amounts.drop_last()) + amounts.last()
    }
}

/// `v`, or the nearest number that an `i32` holds.
pub open spec fn clamped(v: int) -> int {
    if v < i32::MIN {
        i32::MIN as int
    } else if v > i32::MAX {
        i32::MAX as int
    } else {
        v
    }
}

/// The damage queued on an actor, oldest first.
pub open spec fn queue_of(a: Actor) -> Seq<i32> {
    match a.suffer_damage {
        Some(q) => q.amount@,
        None => Seq::empty(),
    }
}

/// The actor once its queued damage is applied: the sum of the queue is
/// taken from its health in one step, and the queue is gone.
pub open spec fn hurt(a: Actor) -> Actor {
    Actor {
        combat_stats: match (a.combat_stats, a.suffer_damage) {
            (Some(s), Some(q)) => Some(
                CombatStats { hp: clamped(s.hp - total(q.amount@)) as i32, ..s },
            ),
            _ => a.combat_stats,
        },
        suffer_damage: None,
        ..a
    }
}

/// Whether the actor's health has run out.
pub open spec fn is_dead(a: Actor) -> bool {
    a.combat_stats matches Some(s) && s.hp < 1
}

/// Whether the death sweep removes the actor: it is dead and not a player.
pub open spec fn leaves(a: Actor) -> bool {
    is_dead(a) && a.player is None
}

/// The actors that the death sweep keeps, in their order.
pub open spec fn survivors(actors: Seq<Actor>) -> Seq<Actor>
    decreases actors.len(),
{
    if actors.len() == 0 {
        Seq::empty()
    } else if leaves(actors.last()) {
        survivors(actors.drop_last())
    } else {
        survivors(actors.drop_last()).push(actors.last())
    }
}

/// What the death sweep writes to the log: a line for each dead player,
/// and a line for each other dead actor that has a name, in table order.
pub open spec fn obituaries(actors: Seq<Actor>) -> Seq<LogEntry>
    decreases actors.len(),
{
    if actors.len() == 0 {
        Seq::empty()
    } else {
        let before = obituaries(actors.drop_last());
        let a = actors.last();
        if !is_dead(a) {
            before
        } else if a.player is Some {
            before.push(LogEntry::PlayerDead)
        } else if a.name is Some {
            before.push(LogEntry::Dead { victim: a.name.unwrap().name })
        } else {
            before
        }
    }
}

/// Whether one of the actors is a dead player.
pub open spec fn player_died(actors: Seq<Actor>) -> bool {
    exists|i: int| 0 <= i < actors.len() && is_dead(#[trigger] actors[i]) && actors[i].player is Some
}

impl SufferDamage {
    /// Queues `amount` points of damage on `victim`, behind what is queued
    /// on it already.
    pub fn new_damage(store: &mut World, victim: Entity, amount: i32)
        requires
            old(store).has(victim),
        ensures
            *final(store) == (World { actors: final(store).actors, ..*old(store) }),
            final(store).actors.len() == old(store).actors.len(),
            forall|j: int|
                0 <= j < old(store).actors.len() && j != old(store).row(victim) ==> final(store).actors[j]
                    == old(store).actors[j],
            ({
                let a = old(store).actors[old(store).row(victim)];
                let b = final(store).actors[old(store).row(victim)];
                &&& b == (Actor { suffer_damage: b.suffer_damage, ..a })
                &&& b.suffer_damage is Some
                &&& queue_of(b) == queue_of(a).push(amount)
            }),
    {
        let row: Option<usize> = store.find(victim);
        if let Some(i) = row {
            let actor = &mut store.actors[i];
            match &mut actor.suffer_damage {
                Some(suffering) => {
                    suffering.amount.push(amount);
                },
                None => {
                    let mut amounts: Vec<i32> = Vec::new();
                    amounts.push(amount);
                    actor.suffer_damage = Some(SufferDamage { amount: amounts });
                },
            }
        }
    }
}

/// The sum of the amounts, as far as an `i32` holds it.
pub fn sum_clamped_from(hp: i32, amounts: &Vec<i32>) -> (left: i32)
    ensures
        left == clamped(hp - total(amounts@)),
{
    let mut sum: i128 = 0;
    let mut j: usize = 0;
    while j < amounts.len()
        invariant
            j <= amounts.len(),
            sum == total(amounts@.take(j as int)),
            -0x8000_0000 * j <= sum <= 0x8000_0000 * j,
        decreases amounts.len() - j,
    {
        assert(amounts@.take(j as int + 1).drop_last() =~= amounts@.take(j as int));
        sum = sum + amounts[j] as i128;
        j += 1;
    }
    assert(amounts@.take(amounts.len() as int) =~= amounts@);
    let left: i128 = hp as i128 - sum;
    if left < i32::MIN as i128 {
        i32::MIN
    } else if left > i32::MAX as i128 {
        i32::MAX
    } else {
        left as i32
    }
}

impl World {
    /// Whether `after` is `self` once the damage system has run: every
    /// actor has its queued damage applied.
    pub open spec fn suffered(&self, after: World) -> bool {
        &&& after == (World { actors: after.actors, ..*self })
        &&& after.actors.len() == self.actors.len()
        &&& forall|i: int| 0 <= i < self.actors.len() ==> #[trigger] after.actors[i] == hurt(self.actors[i])
    }

    /// Whether `after` is `self` once the death sweep has run: the
    /// survivors are left, the deaths are in the log, and the game is over
    /// where a player died.
    pub open spec fn buried(&self, after: World) -> bool {
        &&& after == (World { actors: after.actors, log: after.log, game_over: after.game_over, ..*self })
        &&& after.actors@ == survivors(self.actors@)
        &&& after.log.entries@ == self.log.entries@ + obituaries(self.actors@)
        &&& after.game_over == (self.game_over || player_died(self.actors@))
    }
}

impl DamageSystem {
    /// Applies the queued damage: every actor with combat statistics loses
    /// the sum of its queue in one step, and every queue is cleared.
    pub fn run(&mut self, ecs: &mut World)
        ensures
            old(ecs).suffered(*final(ecs)),
            old(ecs).wf() ==> final(ecs).wf(),
    {
        let mut i: usize = 0;
        while i < ecs.actors.len()
            invariant
                i <= ecs.actors.len(),
                *ecs == (World { actors: ecs.actors, ..*old(ecs) }),
                ecs.actors.len() == old(ecs).actors.len(),
                forall|k: int| 0 <= k < i ==> #[trigger] ecs.actors[k] == hurt(old(ecs).actors[k]),
                forall|k: int| i <= k < ecs.actors.len() ==> ecs.actors[k] == old(ecs).actors[k],
            decreases ecs.actors.len() - i,
        {
            let actor = &mut ecs.actors[i];
            if let Some(stats) = &mut actor.combat_stats {
                if let Some(damage) = &actor.suffer_damage {
                    stats.hp = sum_clamped_from(stats.hp, &damage.amount);
                }
            }
            actor.suffer_damage = None;
            i += 1;
        }
        proof {
            if old(ecs).wf() {
                lemma_still_well_formed(*old(ecs), *ecs);
            }
        }
    }
}

/// The death sweep: every dead actor that is no player leaves the world,
/// and the others stay as they are, in their order. A dead player stays
/// and ends the game.
pub fn delete_the_dead(ecs: &mut World)
    ensures
        old(ecs).buried(*final(ecs)),
        old(ecs).wf() ==> final(ecs).wf(),
{
    let ghost all = ecs.actors@;
    let ghost mut done: int = 0;
    let ghost mut origin: Seq<int> = Seq::empty();
    let mut i: usize = 0;
    while i < ecs.actors.len()
        invariant
            all == old(ecs).actors@,
            0 <= done <= all.len(),
            i == survivors(all.take(done)).len(),
            *ecs == (World { actors: ecs.actors, log: ecs.log, game_over: ecs.game_over, ..*old(ecs) }),
            ecs.actors@ == survivors(all.take(done)) + all.skip(done),
            ecs.log.entries@ == old(ecs).log.entries@ + obituaries(all.take(done)),
            ecs.game_over == (old(ecs).game_over || player_died(all.take(done))),
            origin.len() == i,
            forall|j: int| 0 <= j < i ==> 0 <= #[trigger] origin[j] < done && ecs.actors[j] == all[origin[j]],
            forall|j: int, k: int| 0 <= j < k < i ==> origin[j] < origin[k],
        decreases all.len() - done,
    {
        proof {
            assert(all.take(done + 1).drop_last() =~= all.take(done));
            assert(all.take(done + 1).last() == all[done]);
            assert(ecs.actors@[i as int] == all[done]);
            assert(all.skip(done) =~= seq![all[done]] + all.skip(done + 1));
            lemma_player_died_grows(all, done);
        }
        let dead: bool = match &ecs.actors[i].combat_stats {
            Some(stats) => stats.hp < 1,
            None => false,
        };
        if dead && ecs.actors[i].player.is_none() {
            let victim: Actor = ecs.actors.remove(i);
            if let Some(name) = victim.name {
                ecs.log.entries.push(LogEntry::Dead { victim: name.name });
            }
            proof {
                assert(ecs.actors@ =~= survivors(all.take(done + 1)) + all.skip(done + 1));
            }
        } else {
            if dead {
                ecs.log.entries.push(LogEntry::PlayerDead);
                ecs.game_over = true;
            }
            proof {
                assert(ecs.actors@ =~= survivors(all.take(done + 1)) + all.skip(done + 1));
                origin = origin.push(done);
            }
            i += 1;
        }
        proof {
            done = done + 1;
        }
    }
    proof {
        assert(done == all.len()) by {
            if done < all.len() {
                assert(ecs.actors@.len() == i + (all.len() - done));
            }
        }
        assert(all.take(done) =~= all);
        assert(ecs.actors@ =~= survivors(all));
        if old(ecs).wf() {
            assert forall|k: int| 0 <= k < ecs.actors.len() implies (#[trigger] ecs.actors[k]).fits(&ecs.map) by {
                assert(old(ecs).actors[origin[k]].fits(&old(ecs).map));
            }
            assert forall|k: int| 0 <= k < ecs.actors.len() implies (#[trigger] ecs.actors[k]).entity.id
                < ecs.next_id by {
                assert(old(ecs).actors[origin[k]].entity.id < old(ecs).next_id);
            }
            assert forall|a: int, b: int| 0 <= a < b < ecs.actors.len() implies (#[trigger] ecs.actors[a]).entity
                != (#[trigger] ecs.actors[b]).entity by {
                assert(origin[a] < origin[b]);
                assert(old(ecs).actors[origin[a]].entity != old(ecs).actors[origin[b]].entity);
            }
            assert forall|a: int, b: int|
                0 <= a < ecs.actors.len() && 0 <= b < ecs.actors.len() && (#[trigger] ecs.actors[a]).player
                    is Some && (#[trigger] ecs.actors[b]).player is Some implies a == b by {
                assert(old(ecs).actors[origin[a]].player is Some);
                assert(old(ecs).actors[origin[b]].player is Some);
                assert(origin[a] == origin[b]);
                if a < b {
                    assert(origin[a] < origin[b]);
                }
                if b < a {
                    assert(origin[b] < origin[a]);
                }
            }
        }
    }
}

/// A dead player is among the first `n + 1` actors where it is among the
/// first `n` or is the one after them.
pub proof fn lemma_player_died_grows(all: Seq<Actor>, n: int)
    requires
        0 <= n < all.len(),
    ensures
        player_died(all.take(n + 1)) == (player_died(all.take(n)) || (is_dead(all[n])
            && all[n].player is Some)),
{
    let short = all.take(n);
    let long = all.take(n + 1);
    if player_died(short) {
        let i = choose|i: int| 0 <= i < short.len() && is_dead(#[trigger] short[i]) && short[i].player is Some;
        assert(long[i] == short[i]);
    }
    if is_dead(all[n]) && all[n].player is Some {
        assert(long[n] == all[n]);
    }
    if player_died(long) {
        let i = choose|i: int| 0 <= i < long.len() && is_dead(#[trigger] long[i]) && long[i].player is Some;
        if i < n {
            assert(short[i] == long[i]);
        }
    }
}

/// After the death sweep no dead actor is left but a player, every actor
/// that was alive or a player is still there, and nobody else is.
pub proof fn lemma_survivors(actors: Seq<Actor>)
    ensures
        forall|j: int| 0 <= j < survivors(actors).len() ==> !leaves(#[trigger] survivors(actors)[j]),
        forall|j: int| 0 <= j < survivors(actors).len() ==> actors.contains(#[trigger] survivors(actors)[j]),
        forall|i: int| 0 <= i < actors.len() && !leaves(#[trigger] actors[i]) ==> survivors(actors).contains(actors[i]),
    decreases actors.len(),
{
    if actors.len() > 0 {
        let front = actors.drop_last();
        let a = actors.last();
        lemma_survivors(front);
        let kept = survivors(actors);
        assert forall|j: int| 0 <= j < kept.len() implies actors.contains(#[trigger] kept[j]) by {
            if j < survivors(front).len() {
                assert(kept[j] == survivors(front)[j]);
                let k = choose|k: int| 0 <= k < front.len() && front[k] == survivors(front)[j];
                assert(actors[k] == front[k]);
            } else {
                assert(kept[j] == a);
                assert(actors[actors.len() - 1] == a);
            }
        }
        assert forall|i: int| 0 <= i < actors.len() && !leaves(#[trigger] actors[i]) implies kept.contains(
            actors[i],
        ) by {
            if i < front.len() {
                assert(front[i] == actors[i]);
                assert(survivors(front).contains(front[i]));
                let k = choose|k: int| 0 <= k < survivors(front).len() && survivors(front)[k] == front[i];
                assert(kept[k] == survivors(front)[k]);
            } else {
                assert(kept[kept.len() - 1] == a);
            }
        }
    }
}

/// The death sweep on a well-formed world. An actor whose health has run
/// out is gone afterwards, identifier and all, unless it is a player: a dead
/// player is still there, and the game is over. Whoever was alive is still
/// there as well.
pub proof fn lemma_death_sweep(before: World, after: World, i: int)
    requires
        before.wf(),
        before.buried(after),
        0 <= i < before.actors.len(),
    ensures
        leaves(before.actors[i]) ==> !after.has(before.actors[i].entity),
        !leaves(before.actors[i]) ==> after.actors@.contains(before.actors[i]),
        is_dead(before.actors[i]) && before.actors[i].player is Some ==> after.game_over,
        forall|j: int| 0 <= j < after.actors.len() ==> !leaves(#[trigger] after.actors[j]),
{
    lemma_survivors(before.actors@);
    let a = before.actors[i];
    if leaves(a) && after.has(a.entity) {
        let j = choose|j: int| 0 <= j < after.actors.len() && (#[trigger] after.actors[j]).entity == a.entity;
        let b = after.actors[j];
        assert(after.actors@[j] == survivors(before.actors@)[j]);
        assert(before.actors@.contains(b));
        let k = choose|k: int| 0 <= k < before.actors@.len() && before.actors@[k] == b;
        assert(before.actors[k].entity == before.actors[i].entity);
        if k < i {
            assert(before.actors[k].entity != before.actors[i].entity);
        }
        if i < k {
            assert(before.actors[i].entity != before.actors[k].entity);
        }
        assert(!leaves(b));
    }
    if is_dead(a) && a.player is Some {
        assert(is_dead(before.actors@[i]) && before.actors@[i].player is Some);
    }
    assert forall|j: int| 0 <= j < after.actors.len() implies !leaves(#[trigger] after.actors[j]) by {
        assert(after.actors@[j] == survivors(before.actors@)[j]);
    }
}

} // verus!
