//! Melee: turning the wish to attack into queued damage.

use vstd::prelude::*;
use crate::components::{Entity, SufferDamage};
use crate::damage_system::{clamped, queue_of, total};
use crate::gamelog::LogEntry;
use crate::world::{
    lemma_row_exists, lemma_same_rows, lemma_still_well_formed, Actor, World,
};

verus! {

/// The system that resolves the wishes to attack.
pub struct MeleeCombatSystem {
}

/// The damage of a blow: what the attacker's power exceeds the defender's
/// defense by, and nothing where it does not exceed it.
pub open spec fn damage_of(power: int, defense: int) -> int {
    if power - defense > 0 {
        power - defense
    } else {
        0
    }
}

/// The damage of a blow as it is queued: `damage_of`, as far as an `i32`
/// holds it.
pub open spec fn queued_damage(power: int, defense: int) -> int {
    if damage_of(power, defense) > i32::MAX {
        i32::MAX as int
    } else {
        damage_of(power, defense)
    }
}

/// The damage of a blow.
pub fn melee_damage(power: i32, defense: i32) -> (damage: i32)
    ensures
        damage == queued_damage(power as int, defense as int),
        damage >= 0,
{
    let raw: i64 = power as i64 - defense as i64;
    if raw <= 0 {
        0
    } else if raw > i32::MAX as i64 {
        i32::MAX
    } else {
        raw as i32
    }
}

/// A blow deals what the attacker's power exceeds the defender's defense
/// by, and never less than nothing.
pub proof fn lemma_damage_formula(power: i32, defense: i32)
    requires
        power - defense <= i32::MAX,
    ensures
        queued_damage(power as int, defense as int) == damage_of(power as int, defense as int),
        damage_of(power as int, defense as int) == vstd::math::max(0, power - defense),
{
}

impl World {
    /// Whether actor `i` strikes in this tick: it wishes to attack, it is
    /// alive, and its target is an actor that is alive.
    pub open spec fn strikes(&self, i: int) -> bool {
        &&& 0 <= i < self.actors.len()
        &&& self.actors[i].wants_to_melee is Some
        &&& self.actors[i].combat_stats is Some
        &&& self.actors[i].combat_stats.unwrap().hp > 0
        &&& self.has(self.actors[i].wants_to_melee.unwrap().target)
        &&& self.actors[self.victim_of(i)].combat_stats is Some
        &&& self.actors[self.victim_of(i)].combat_stats.unwrap().hp > 0
    }

    /// The row of the actor that actor `i` wishes to attack.
    pub open spec fn victim_of(&self, i: int) -> int {
        self.row(self.actors[i].wants_to_melee.unwrap().target)
    }

    /// The damage of the blow that actor `i` strikes.
    pub open spec fn blow_of(&self, i: int) -> int {
        queued_damage(
            self.actors[i].combat_stats.unwrap().power as int,
            self.actors[self.victim_of(i)].combat_stats.unwrap().defense as int,
        )
    }

    /// The damage that the first `n` actors queue on the actor in row `t`,
    /// in table order. A blow without damage queues nothing.
    pub open spec fn blows_on(&self, t: int, n: int) -> Seq<i32>
        decreases n,
    {
        if n <= 0 {
            Seq::empty()
        } else if self.strikes(n - 1) && self.victim_of(n - 1) == t && self.blow_of(n - 1) > 0 {
            self.blows_on(t, n - 1).push(self.blow_of(n - 1) as i32)
        } else {
            self.blows_on(t, n - 1)
        }
    }

    /// What the blows of the first `n` actors write to the log.
    pub open spec fn melee_log(&self, n: int) -> Seq<LogEntry>
        decreases n,
    {
        if n <= 0 {
            Seq::empty()
        } else if self.strikes(n - 1) {
            let attacker = self.actors[n - 1].label();
            let target = self.actors[self.victim_of(n - 1)].label();
            if self.blow_of(n - 1) > 0 {
                self.melee_log(n - 1).push(
                    LogEntry::Hit { attacker, target, damage: self.blow_of(n - 1) as i32 },
                )
            } else {
                self.melee_log(n - 1).push(LogEntry::UnableToHurt { attacker, target })
            }
        } else {
            self.melee_log(n - 1)
        }
    }

    /// Whether `after` is `self` once the first `n` actors have struck, and
    /// every wish to attack is `cleared` or not yet: the damage of the
    /// blows is queued on their targets, behind what was queued before,
    /// and nobody's health has changed.
    pub open spec fn fought(&self, after: World, n: int, cleared: bool) -> bool {
        &&& after == (World { actors: after.actors, log: after.log, ..*self })
        &&& after.actors.len() == self.actors.len()
        &&& after.log.entries@ == self.log.entries@ + self.melee_log(n)
        &&& forall|t: int|
            0 <= t < self.actors.len() ==> {
                let a = self.actors[t];
                let b = #[trigger] after.actors[t];
                &&& b == (Actor {
                    suffer_damage: b.suffer_damage,
                    wants_to_melee: if cleared {
                        None
                    } else {
                        a.wants_to_melee
                    },
                    ..a
                })
                &&& queue_of(b) == queue_of(a) + self.blows_on(t, n)
                &&& b.suffer_damage is Some <==> a.suffer_damage is Some || self.blows_on(t, n).len() > 0
            }
    }
}

impl MeleeCombatSystem {
    /// The melee phase: every living actor that wishes to attack a living
    /// actor strikes, in table order. A blow with damage is queued on the
    /// target; a blow without is only written to the log. All wishes to
    /// attack are cleared.
    pub fn run(&mut self, ecs: &mut World)
        ensures
            old(ecs).fought(*final(ecs), old(ecs).actors.len() as int, true),
            old(ecs).wf() ==> final(ecs).wf(),
    {
        let mut i: usize = 0;
        while i < ecs.actors.len()
            invariant
                i <= ecs.actors.len(),
                old(ecs).fought(*ecs, i as int, false),
            decreases ecs.actors.len() - i,
        {
            let ghost before = *ecs;
            let blow: Option<(Entity, i32, usize)> = match (
                &ecs.actors[i].wants_to_melee,
                &ecs.actors[i].combat_stats,
            ) {
                (Some(wish), Some(stats)) => if stats.hp > 0 {
                    match ecs.find(wish.target) {
                        Some(row) => match &ecs.actors[row].combat_stats {
                            Some(target_stats) => if target_stats.hp > 0 {
                                Some((wish.target, melee_damage(stats.power, target_stats.defense), row))
                            } else {
                                None
                            },
                            None => None,
                        },
                        None => None,
                    }
                } else {
                    None
                },
                _ => None,
            };
            proof {
                lemma_same_rows(*old(ecs), before);
                assert(before.actors[i as int].wants_to_melee == old(ecs).actors[i as int].wants_to_melee);
                if old(ecs).actors[i as int].wants_to_melee is Some {
                    let e = old(ecs).actors[i as int].wants_to_melee.unwrap().target;
                    if old(ecs).has(e) {
                        lemma_row_exists(*old(ecs), e);
                        let v = old(ecs).victim_of(i as int);
                        assert(before.row(e) == v);
                        assert(before.actors[v].combat_stats == old(ecs).actors[v].combat_stats);
                    }
                }
                assert(blow is Some == old(ecs).strikes(i as int));
                if blow is Some {
                    assert(blow.unwrap().0 == old(ecs).actors[i as int].wants_to_melee.unwrap().target);
                    assert(blow.unwrap().2 == old(ecs).victim_of(i as int));
                    assert(blow.unwrap().1 == old(ecs).blow_of(i as int));
                }
            }
            if let Some((target, damage, row)) = blow {
                let attacker: Option<String> = ecs.actors[i].label_copy();
                let victim: Option<String> = ecs.actors[row].label_copy();
                if damage == 0 {
                    ecs.log.entries.push(LogEntry::UnableToHurt { attacker, target: victim });
                } else {
                    ecs.log.entries.push(LogEntry::Hit { attacker, target: victim, damage });
                    proof {
                        lemma_same_rows(*old(ecs), *ecs);
                    }
                    SufferDamage::new_damage(ecs, target, damage);
                }
            }
            proof {
                assert forall|t: int| 0 <= t < old(ecs).actors.len() implies {
                    let a = old(ecs).actors[t];
                    let b = #[trigger] ecs.actors[t];
                    &&& b == (Actor { suffer_damage: b.suffer_damage, wants_to_melee: a.wants_to_melee, ..a })
                    &&& queue_of(b) == queue_of(a) + old(ecs).blows_on(t, i as int + 1)
                    &&& b.suffer_damage is Some <==> a.suffer_damage is Some || old(ecs).blows_on(
                        t,
                        i as int + 1,
                    ).len() > 0
                } by {
                    let c = before.actors[t];
                    let a = old(ecs).actors[t];
                    assert(c == (Actor { suffer_damage: c.suffer_damage, wants_to_melee: a.wants_to_melee, ..a }));
                    assert(queue_of(c) == queue_of(a) + old(ecs).blows_on(t, i as int));
                    if blow is Some && blow.unwrap().1 != 0 && t == blow.unwrap().2 {
                        assert(old(ecs).blows_on(t, i as int + 1) == old(ecs).blows_on(t, i as int).push(
                            blow.unwrap().1,
                        ));
                        assert(queue_of(ecs.actors[t]) == queue_of(c).push(blow.unwrap().1));
                        assert(queue_of(ecs.actors[t]) =~= queue_of(a) + old(ecs).blows_on(t, i as int + 1));
                    } else {
                        assert(ecs.actors[t] == c);
                        assert(old(ecs).blows_on(t, i as int + 1) == old(ecs).blows_on(t, i as int));
                    }
                }
            }
            i += 1;
        }
        let mut k: usize = 0;
        while k < ecs.actors.len()
            invariant
                k <= ecs.actors.len(),
                ecs.actors.len() == old(ecs).actors.len(),
                *ecs == (World { actors: ecs.actors, log: ecs.log, ..*old(ecs) }),
                ecs.log.entries@ == old(ecs).log.entries@ + old(ecs).melee_log(old(ecs).actors.len() as int),
                forall|t: int|
                    0 <= t < old(ecs).actors.len() ==> {
                        let a = old(ecs).actors[t];
                        let b = #[trigger] ecs.actors[t];
                        &&& b == (Actor {
                            suffer_damage: b.suffer_damage,
                            wants_to_melee: if t < k {
                                None
                            } else {
                                a.wants_to_melee
                            },
                            ..a
                        })
                        &&& queue_of(b) == queue_of(a) + old(ecs).blows_on(t, old(ecs).actors.len() as int)
                        &&& b.suffer_damage is Some <==> a.suffer_damage is Some || old(ecs).blows_on(
                            t,
                            old(ecs).actors.len() as int,
                        ).len() > 0
                    },
            decreases ecs.actors.len() - k,
        {
            ecs.actors[k].wants_to_melee = None;
            k += 1;
        }
        proof {
            if old(ecs).wf() {
                lemma_still_well_formed(*old(ecs), *ecs);
            }
        }
    }
}

/// All blows of one tick count at once. Once the melee phase and then the
/// damage system have run, an actor with combat statistics has lost the
/// sum of what was queued on it before and of every blow struck at it in
/// this tick, whatever the order of the attackers.
pub proof fn lemma_blows_add_up(before: World, struck: World, after: World, t: int)
    requires
        before.fought(struck, before.actors.len() as int, true),
        struck.suffered(after),
        0 <= t < before.actors.len(),
        before.actors[t].combat_stats is Some,
    ensures
        after.actors[t].combat_stats is Some,
        after.actors[t].combat_stats.unwrap().hp == clamped(
            before.actors[t].combat_stats.unwrap().hp - total(
                queue_of(before.actors[t]) + before.blows_on(t, before.actors.len() as int),
            ),
        ),
        after.actors[t].suffer_damage is None,
{
    let a = before.actors[t];
    let b = struck.actors[t];
    let c = after.actors[t];
    assert(c == crate::damage_system::hurt(b));
    assert(queue_of(b) == queue_of(a) + before.blows_on(t, before.actors.len() as int));
    if b.suffer_damage is None {
        assert(queue_of(b) =~= Seq::<i32>::empty());
        assert(total(queue_of(b)) == 0);
    }
}

} // verus!
