//! Bookkeeping of the map: which tiles are blocked, and who stands where.

use vstd::prelude::*;
use crate::components::Entity;
use crate::map::{GameMap, TileType};
use crate::world::World;

verus! {

/// The system that keeps the map's bookkeeping.
pub struct MapIndexingSystem {
}

impl World {
    /// Whether actor `k` stands on tile `idx`.
    pub open spec fn stands_on(&self, k: int, idx: int) -> bool {
        &&& 0 <= k < self.actors.len()
        &&& self.actors[k].position matches Some(p)
        &&& self.map.index_of(p.x as int, p.y as int) == idx
    }

    /// Whether one of the first `n` actors stands on tile `idx` and blocks
    /// it.
    pub open spec fn blocker_on(&self, idx: int, n: int) -> bool {
        exists|k: int| 0 <= k < n && #[trigger] self.stands_on(k, idx) && self.actors[k].blocks_tile is Some
    }

    /// Those of the first `n` actors that stand on tile `idx`, in table
    /// order.
    pub open spec fn standing_on(&self, idx: int, n: int) -> Seq<Entity>
        decreases n,
    {
        if n <= 0 {
            Seq::empty()
        } else if self.stands_on(n - 1, idx) {
            self.standing_on(idx, n - 1).push(self.actors[n - 1].entity)
        } else {
            self.standing_on(idx, n - 1)
        }
    }

    /// Whether `after` is `self` with the map's bookkeeping brought up to
    /// date for the first `n` actors: a tile is blocked where it is a wall
    /// or a blocking actor stands on it, and each tile lists the actors
    /// that stand on it.
    pub open spec fn indexed(&self, after: World, n: int) -> bool {
        &&& after == (World { map: after.map, ..*self })
        &&& after.map == (GameMap {
            blocked: after.map.blocked,
            tile_content: after.map.tile_content,
            ..self.map
        })
        &&& after.map.blocked.len() == self.map.tiles.len()
        &&& after.map.tile_content.len() == self.map.tiles.len()
        &&& forall|idx: int|
            0 <= idx < self.map.tiles.len() ==> #[trigger] after.map.blocked[idx] == (self.map.tiles[idx]
                == TileType::Wall || self.blocker_on(idx, n))
        &&& forall|idx: int|
            0 <= idx < self.map.tiles.len() ==> (#[trigger] after.map.tile_content[idx])@
                == self.standing_on(idx, n)
    }
}

impl MapIndexingSystem {
    /// Brings the map's bookkeeping up to date with where the actors stand.
    pub fn run(&mut self, ecs: &mut World)
        requires
            old(ecs).wf(),
        ensures
            final(ecs).wf(),
            old(ecs).indexed(*final(ecs), old(ecs).actors.len() as int),
    {
        ecs.map.populate_blocked();
        ecs.map.clear_content_index();
        proof {
            assert forall|idx: int| 0 <= idx < old(ecs).map.tiles.len() implies (
            #[trigger] ecs.map.tile_content[idx])@ == old(ecs).standing_on(idx, 0) by {
                assert(ecs.map.tile_content[idx]@.len() == 0);
                assert(ecs.map.tile_content[idx]@ =~= Seq::<Entity>::empty());
            }
        }
        let mut k: usize = 0;
        while k < ecs.actors.len()
            invariant
                old(ecs).wf(),
                ecs.wf(),
                k <= ecs.actors.len(),
                ecs.actors == old(ecs).actors,
                old(ecs).indexed(*ecs, k as int),
            decreases ecs.actors.len() - k,
        {
            let ghost before = *ecs;
            let spot: Option<(i32, i32)> = match &ecs.actors[k].position {
                Some(p) => Some((p.x, p.y)),
                None => None,
            };
            if let Some((x, y)) = spot {
                assert(ecs.actors[k as int].fits(&ecs.map));
                let at: usize = ecs.map.map_index(x, y);
                if ecs.actors[k].blocks_tile.is_some() {
                    ecs.map.blocked[at] = true;
                }
                let who: Entity = ecs.actors[k].entity;
                ecs.map.tile_content[at].push(who);
            }
            proof {
                assert forall|idx: int| 0 <= idx < old(ecs).map.tiles.len() implies #[trigger] ecs.map.blocked[idx]
                    == (old(ecs).map.tiles[idx] == TileType::Wall || old(ecs).blocker_on(
                    idx,
                    k as int + 1,
                )) by {
                    assert(before.map.blocked[idx] == (old(ecs).map.tiles[idx] == TileType::Wall
                        || old(ecs).blocker_on(idx, k as int)));
                    if old(ecs).blocker_on(idx, k as int) {
                        let j = choose|j: int|
                            0 <= j < k && #[trigger] old(ecs).stands_on(j, idx)
                                && old(ecs).actors[j].blocks_tile is Some;
                        assert(old(ecs).stands_on(j, idx));
                    }
                    if old(ecs).stands_on(k as int, idx) && old(ecs).actors[k as int].blocks_tile is Some {
                        assert(old(ecs).blocker_on(idx, k as int + 1));
                    }
                    if old(ecs).blocker_on(idx, k as int + 1) {
                        let j = choose|j: int|
                            0 <= j < k + 1 && #[trigger] old(ecs).stands_on(j, idx)
                                && old(ecs).actors[j].blocks_tile is Some;
                        if j < k {
                            assert(old(ecs).blocker_on(idx, k as int));
                        }
                    }
                }
                assert forall|idx: int| 0 <= idx < old(ecs).map.tiles.len() implies (
                #[trigger] ecs.map.tile_content[idx])@ == old(ecs).standing_on(idx, k as int + 1) by {
                    assert(before.map.tile_content[idx]@ == old(ecs).standing_on(idx, k as int));
                }
            }
            k += 1;
        }
    }
}

} // verus!
