//! Picking items up.

use vstd::prelude::*;
use crate::components::{Entity, InInventory};
use crate::gamelog::LogEntry;
use crate::world::{lemma_row_exists, lemma_same_rows, lemma_still_well_formed, Actor, World};

verus! {

/// The system that grants the wishes to pick items up.
pub struct ItemCollectionSystem {
}

impl World {
    /// Whether actor `k` picks something up in this tick: it wishes to,
    /// and the item is an actor of the table.
    pub open spec fn picks(&self, k: int) -> bool {
        &&& 0 <= k < self.actors.len()
        &&& self.actors[k].wants_to_pickup is Some
        &&& self.has(self.actors[k].wants_to_pickup.unwrap().item)
    }

    /// The row of the item that actor `k` wishes to pick up.
    pub open spec fn pick_of(&self, k: int) -> int {
        self.row(self.actors[k].wants_to_pickup.unwrap().item)
    }

    /// Whether one of the first `n` actors picks up the item in row `r`.
    pub open spec fn taken(&self, r: int, n: int) -> bool
        decreases n,
    {
        if n <= 0 {
            false
        } else {
            (self.picks(n - 1) && self.pick_of(n - 1) == r) || self.taken(r, n - 1)
        }
    }

    /// In whose backpack the item in row `r` lies once the first `n` actors
    /// have picked up what they wished to: the last to take it has it.
    pub open spec fn holder_of(&self, r: int, n: int) -> Option<InInventory>
        decreases n,
    {
        if n <= 0 {
            self.actors[r].in_inventory
        } else if self.picks(n - 1) && self.pick_of(n - 1) == r {
            Some(InInventory { owner: self.actors[n - 1].wants_to_pickup.unwrap().collected_by })
        } else {
            self.holder_of(r, n - 1)
        }
    }

    /// What the first `n` actors' picking up writes to the log: a line for
    /// each item that goes to the player.
    pub open spec fn pickup_log(&self, n: int) -> Seq<LogEntry>
        decreases n,
    {
        if n <= 0 {
            Seq::empty()
        } else if self.picks(n - 1) && self.actors[n - 1].wants_to_pickup.unwrap().collected_by
            == self.player_entity {
            self.pickup_log(n - 1).push(
                LogEntry::PickedUp { item: self.actors[self.pick_of(n - 1)].label() },
            )
        } else {
            self.pickup_log(n - 1)
        }
    }

    /// Whether `after` is `self` once the first `n` actors have picked up
    /// what they wished to, and every such wish is `cleared` or not yet:
    /// an item that was taken has no position any more and lies in a
    /// backpack.
    pub open spec fn collected(&self, after: World, n: int, cleared: bool) -> bool {
        &&& after == (World { actors: after.actors, log: after.log, ..*self })
        &&& after.actors.len() == self.actors.len()
        &&& after.log.entries@ == self.log.entries@ + self.pickup_log(n)
        &&& forall|r: int|
            0 <= r < self.actors.len() ==> #[trigger] after.actors[r] == (Actor {
                position: if self.taken(r, n) {
                    None
                } else {
                    self.actors[r].position
                },
                in_inventory: self.holder_of(r, n),
                wants_to_pickup: if cleared {
                    None
                } else {
                    self.actors[r].wants_to_pickup
                },
                ..self.actors[r]
            })
    }
}

impl ItemCollectionSystem {
    /// The pickup phase: every wish to pick an item up is granted, in table
    /// order, where the item is still in the world. All such wishes are
    /// cleared.
    pub fn run(&mut self, ecs: &mut World)
        ensures
            old(ecs).collected(*final(ecs), old(ecs).actors.len() as int, true),
            old(ecs).wf() ==> final(ecs).wf(),
    {
        let mut k: usize = 0;
        while k < ecs.actors.len()
            invariant
                k <= ecs.actors.len(),
                old(ecs).collected(*ecs, k as int, false),
            decreases ecs.actors.len() - k,
        {
            let ghost before = *ecs;
            let pick: Option<(usize, Entity)> = match &ecs.actors[k].wants_to_pickup {
                Some(wish) => match ecs.find(wish.item) {
                    Some(row) => Some((row, wish.collected_by)),
                    None => None,
                },
                None => None,
            };
            proof {
                lemma_same_rows(*old(ecs), before);
                assert(before.actors[k as int].wants_to_pickup == old(ecs).actors[k as int].wants_to_pickup);
                if old(ecs).actors[k as int].wants_to_pickup is Some {
                    let e = old(ecs).actors[k as int].wants_to_pickup.unwrap().item;
                    if old(ecs).has(e) {
                        lemma_row_exists(*old(ecs), e);
                    }
                }
                assert(pick is Some == old(ecs).picks(k as int));
            }
            if let Some((row, owner)) = pick {
                ecs.actors[row].position = None;
                ecs.actors[row].in_inventory = Some(InInventory { owner });
                if owner.id == ecs.player_entity.id {
                    let item: Option<String> = ecs.actors[row].label_copy();
                    ecs.log.entries.push(LogEntry::PickedUp { item });
                }
            }
            proof {
                assert forall|r: int| 0 <= r < old(ecs).actors.len() implies #[trigger] ecs.actors[r] == (Actor {
                    position: if old(ecs).taken(r, k as int + 1) {
                        None
                    } else {
                        old(ecs).actors[r].position
                    },
                    in_inventory: old(ecs).holder_of(r, k as int + 1),
                    wants_to_pickup: old(ecs).actors[r].wants_to_pickup,
                    ..old(ecs).actors[r]
                }) by {
                    let c = before.actors[r];
                }
            }
            k += 1;
        }
        let mut j: usize = 0;
        while j < ecs.actors.len()
            invariant
                j <= ecs.actors.len(),
                ecs.actors.len() == old(ecs).actors.len(),
                *ecs == (World { actors: ecs.actors, log: ecs.log, ..*old(ecs) }),
                ecs.log.entries@ == old(ecs).log.entries@ + old(ecs).pickup_log(old(ecs).actors.len() as int),
                forall|r: int|
                    0 <= r < old(ecs).actors.len() ==> #[trigger] ecs.actors[r] == (Actor {
                        position: if old(ecs).taken(r, old(ecs).actors.len() as int) {
                            None
                        } else {
                            old(ecs).actors[r].position
                        },
                        in_inventory: old(ecs).holder_of(r, old(ecs).actors.len() as int),
                        wants_to_pickup: if r < j {
                            None
                        } else {
                            old(ecs).actors[r].wants_to_pickup
                        },
                        ..old(ecs).actors[r]
                    }),
            decreases ecs.actors.len() - j,
        {
            ecs.actors[j].wants_to_pickup = None;
            j += 1;
        }
        proof {
            if old(ecs).wf() {
                lemma_still_well_formed(*old(ecs), *ecs);
            }
        }
    }
}

} // verus!
