//! Line of sight: what each actor sees, and what of the map the player has
//! seen so far.

use vstd::prelude::*;
use crate::components::{Viewshed, MAX_VIEW_RANGE};
use crate::geometry::Coord;
use crate::map::{lemma_cell_fits, lemma_index_fits, GameMap, TileType};
use crate::world::{Actor, World};

verus! {

/// The system that computes what actors see.
pub struct VisibilitySystem {
}

/// `rltk::Point`, in which the field-of-view sweep asks for the size of
/// the grid: a struct of two public coordinates, `x` and `y`.
#[verifier::external_type_specification]
pub struct ExPoint(rltk::Point);

/// The cells that `rltk::field_of_view` finds visible from `(x, y)` within
/// `range`, on a grid of `width` by `height` cells of which `opaque` says,
/// tile by tile, whether it blocks sight.
pub uninterp spec fn field_of_view_set(
    x: int,
    y: int,
    range: int,
    width: int,
    height: int,
    opaque: Seq<bool>,
) -> Set<(int, int)>;

impl rltk::BaseMap for GameMap {
    /// Whether tile `idx` blocks sight.
    fn is_opaque(&self, idx: usize) -> (r: bool)
        ensures
            r == self.opaque_at(idx as int),
    {
        idx >= self.tiles.len() || self.tiles[idx] == TileType::Wall
    }
}

impl rltk::Algorithm2D for GameMap {
    /// The width and the height of the map, which the field-of-view sweep
    /// takes as the bounds of the grid.
    fn dimensions(&self) -> (size: rltk::Point)
        ensures
            size.x == self.width,
            size.y == self.height,
    {
        rltk::Point { x: self.width, y: self.height }
    }
}

/// Whether `p` lies no more than `range` columns and no more than `range`
/// rows away from `(x, y)`.
pub open spec fn near(p: Coord, x: int, y: int, range: int) -> bool {
    -range <= p.x - x <= range && -range <= p.y - y <= range
}

/// `rltk::field_of_view`, a recursive shadow-casting sweep over the map.
/// The sweep collects the cells in a hash set, keeps those inside the
/// grid and hands them out in no particular order: each cell once, all of
/// them inside the map, the viewer's own cell among them. It takes no cell
/// whose squared distance from the viewer exceeds the square of `range`,
/// so none lies more than `range` columns or rows away. Which cells these
/// are depends on the arguments alone and goes by the name
/// `field_of_view_set`.
#[verifier::external_body]
fn field_of_view(map: &GameMap, x: i32, y: i32, range: i32) -> (points: Vec<Coord>)
    requires
        map.wf(),
        map.in_bounds(x as int, y as int),
        0 <= range <= MAX_VIEW_RANGE,
    ensures
        points@.no_duplicates(),
        points@.contains(Coord { x, y }),
        forall|i: int| 0 <= i < points.len() ==> map.in_bounds(points[i].x as int, points[i].y as int),
        forall|i: int| 0 <= i < points.len() ==> near(points[i], x as int, y as int, range as int),
        forall|p: Coord|
            points@.contains(p) <==> field_of_view_set(
                x as int,
                y as int,
                range as int,
                map.width as int,
                map.height as int,
                map.opacity(),
            ).contains((p.x as int, p.y as int)),
{
    let mut points: Vec<Coord> = Vec::new();
    for p in rltk::field_of_view(rltk::Point::new(x, y), range, map) {
        points.push(Coord { x: p.x, y: p.y });
    }
    points
}

impl GameMap {
    /// The cell that tile `idx` stands for.
    pub open spec fn cell(&self, idx: int) -> Coord {
        Coord { x: (idx % (self.width as int)) as i32, y: (idx / (self.width as int)) as i32 }
    }

    /// Shows the player `points`: what is visible is exactly those of
    /// these cells that are cells of the map, and, where `reveal` holds,
    /// they count as revealed from now on.
    pub fn show(&mut self, points: &Vec<Coord>, reveal: bool)
        requires
            old(self).wf(),
        ensures
            final(self).wf(),
            *final(self) == (GameMap {
                revealed_tiles: final(self).revealed_tiles,
                visible_tiles: final(self).visible_tiles,
                ..*old(self)
            }),
            forall|idx: int|
                0 <= idx < old(self).tiles.len() ==> #[trigger] final(self).visible_tiles[idx]
                    == points@.contains(old(self).cell(idx)),
            forall|idx: int|
                0 <= idx < old(self).tiles.len() ==> #[trigger] final(self).revealed_tiles[idx] == (
                old(self).revealed_tiles[idx] || (reveal && points@.contains(old(self).cell(idx)))),
    {
        let mut idx: usize = 0;
        while idx < self.visible_tiles.len()
            invariant
                self.wf(),
                idx <= self.visible_tiles.len(),
                *self == (GameMap { visible_tiles: self.visible_tiles, ..*old(self) }),
                forall|k: int| 0 <= k < idx ==> !self.visible_tiles[k],
            decreases self.visible_tiles.len() - idx,
        {
            self.visible_tiles[idx] = false;
            idx += 1;
        }
        let mut n: usize = 0;
        while n < points.len()
            invariant
                self.wf(),
                n <= points.len(),
                *self == (GameMap {
                    revealed_tiles: self.revealed_tiles,
                    visible_tiles: self.visible_tiles,
                    ..*old(self)
                }),
                forall|idx: int|
                    0 <= idx < self.tiles.len() ==> self.visible_tiles[idx] == (exists|j: int|
                        0 <= j < n && points[j] == self.cell(idx)),
                forall|idx: int|
                    0 <= idx < self.tiles.len() ==> self.revealed_tiles[idx] == (
                    old(self).revealed_tiles[idx] || (reveal && exists|j: int|
                        0 <= j < n && points[j] == self.cell(idx))),
            decreases points.len() - n,
        {
            let p: Coord = points[n];
            if p.x < 0 || p.x >= self.width || p.y < 0 || p.y >= self.height {
                proof {
                    assert forall|idx: int| 0 <= idx < self.tiles.len() implies self.cell(idx) != p by {
                        lemma_cell_fits(idx, self.width as int, self.height as int);
                    }
                    assert forall|idx: int| 0 <= idx < self.tiles.len() implies self.visible_tiles[idx]
                        == (exists|j: int| 0 <= j < n + 1 && points[j] == self.cell(idx)) by {
                        assert(self.cell(idx) != p);
                        if exists|j: int| 0 <= j < n + 1 && points[j] == self.cell(idx) {
                            let j = choose|j: int| 0 <= j < n + 1 && points[j] == self.cell(idx);
                            assert(j < n);
                        }
                    }
                    assert forall|idx: int| 0 <= idx < self.tiles.len() implies self.revealed_tiles[idx]
                        == (old(self).revealed_tiles[idx] || (reveal && exists|j: int|
                        0 <= j < n + 1 && points[j] == self.cell(idx))) by {
                        assert(self.cell(idx) != p);
                        if exists|j: int| 0 <= j < n + 1 && points[j] == self.cell(idx) {
                            let j = choose|j: int| 0 <= j < n + 1 && points[j] == self.cell(idx);
                            assert(j < n);
                        }
                    }
                }
            } else {
            let at: usize = self.map_index(p.x, p.y);
            let ghost before = *self;
            if reveal {
                self.revealed_tiles[at] = true;
            }
            self.visible_tiles[at] = true;
            proof {
                let w = self.width as int;
                let h = self.height as int;
                lemma_index_fits(p.x as int, p.y as int, w, h);
                assert(self.cell(at as int) == p);
                assert forall|idx: int| 0 <= idx < self.tiles.len() implies self.visible_tiles[idx] == (
                exists|j: int| 0 <= j < n + 1 && points[j] == self.cell(idx)) by {
                    lemma_cell_fits(idx, w, h);
                    if idx == at {
                        assert(points[n as int] == self.cell(idx));
                    } else {
                        assert(self.cell(idx) != p);
                        assert(self.visible_tiles[idx] == before.visible_tiles[idx]);
                        if exists|j: int| 0 <= j < n + 1 && points[j] == self.cell(idx) {
                            let j = choose|j: int| 0 <= j < n + 1 && points[j] == self.cell(idx);
                            assert(j < n);
                        }
                    }
                }
                assert forall|idx: int| 0 <= idx < self.tiles.len() implies self.revealed_tiles[idx]
                    == (old(self).revealed_tiles[idx] || (reveal && exists|j: int|
                    0 <= j < n + 1 && points[j] == self.cell(idx))) by {
                    lemma_cell_fits(idx, w, h);
                    if idx == at {
                        assert(points[n as int] == self.cell(idx));
                    } else {
                        assert(self.cell(idx) != p);
                        assert(self.revealed_tiles[idx] == before.revealed_tiles[idx]);
                        if exists|j: int| 0 <= j < n + 1 && points[j] == self.cell(idx) {
                            let j = choose|j: int| 0 <= j < n + 1 && points[j] == self.cell(idx);
                            assert(j < n);
                        }
                    }
                }
            }
            }
            n += 1;
        }
        proof {
            assert forall|idx: int| 0 <= idx < self.tiles.len() implies (points@.contains(
                self.cell(idx),
            ) <==> (exists|j: int| 0 <= j < points.len() && points[j] == self.cell(idx))) by {
                if points@.contains(self.cell(idx)) {
                    let j = choose|j: int| 0 <= j < points@.len() && points@[j] == self.cell(idx);
                    assert(points[j] == self.cell(idx));
                }
                if exists|j: int| 0 <= j < points.len() && points[j] == self.cell(idx) {
                    let j = choose|j: int| 0 <= j < points.len() && points[j] == self.cell(idx);
                    assert(points@[j] == self.cell(idx));
                }
            }
        }
    }
}

impl World {
    /// Whether actor `i` has a viewshed that asks to be computed, and a
    /// position to compute it from.
    pub open spec fn looks(&self, i: int) -> bool {
        &&& 0 <= i < self.actors.len()
        &&& self.actors[i].position is Some
        &&& self.actors[i].viewshed is Some
        &&& self.actors[i].viewshed.unwrap().dirty
    }

    /// Whether actor `i` is a player whose viewshed asks to be computed.
    pub open spec fn player_looks(&self, i: int) -> bool {
        self.looks(i) && self.actors[i].player is Some
    }

    /// The cells in the line of sight of actor `i`.
    pub open spec fn sight_of(&self, i: int) -> Set<(int, int)> {
        field_of_view_set(
            self.actors[i].position.unwrap().x as int,
            self.actors[i].position.unwrap().y as int,
            self.actors[i].viewshed.unwrap().range as int,
            self.map.width as int,
            self.map.height as int,
            self.map.opacity(),
        )
    }

    /// Whether tile `idx` is in the line of sight of actor `i`.
    pub open spec fn lit_by(&self, i: int, idx: int) -> bool {
        self.sight_of(i).contains((self.map.cell(idx).x as int, self.map.cell(idx).y as int))
    }

    /// Whether `after` is actor `i` once the visibility system has run: a
    /// viewshed that asked for it holds the cells in the actor's line of
    /// sight, each once, all of them cells of the map within the viewshed's
    /// range, and asks no more; any other actor is unchanged.
    pub open spec fn looked(&self, after: Actor, i: int) -> bool {
        if self.looks(i) {
            let seen = after.viewshed.unwrap().visible_tiles;
            &&& after == (Actor {
                viewshed: Some(
                    Viewshed { visible_tiles: seen, dirty: false, ..self.actors[i].viewshed.unwrap() },
                ),
                ..self.actors[i]
            })
            &&& seen@.no_duplicates()
            &&& forall|k: int|
                0 <= k < seen.len() ==> self.map.in_bounds(
                    (#[trigger] seen[k]).x as int,
                    seen[k].y as int,
                )
            &&& forall|k: int|
                0 <= k < seen.len() ==> near(
                    #[trigger] seen[k],
                    self.actors[i].position.unwrap().x as int,
                    self.actors[i].position.unwrap().y as int,
                    self.actors[i].viewshed.unwrap().range as int,
                )
            &&& forall|p: Coord|
                seen@.contains(p) <==> self.sight_of(i).contains((p.x as int, p.y as int))
        } else {
            after == self.actors[i]
        }
    }
}

impl World {
    /// Whether actor `i` is the one whose sight the map shows: it carries
    /// the player tag and a viewshed.
    pub open spec fn is_viewer(&self, i: int) -> bool {
        &&& 0 <= i < self.actors.len()
        &&& self.actors[i].player is Some
        &&& self.actors[i].viewshed is Some
    }

    /// Whether viewer `i` sees tile `idx` once the visibility system has
    /// run: the tile is in its line of sight where its viewshed asked to be
    /// computed, and among the cells the viewshed held where it did not.
    pub open spec fn in_view(&self, i: int, idx: int) -> bool {
        if self.looks(i) {
            self.lit_by(i, idx)
        } else {
            self.actors[i].viewshed.unwrap().visible_tiles@.contains(self.map.cell(idx))
        }
    }

    /// Whether `after` is `self` once the visibility system has run. Every
    /// viewshed that asked for it is computed anew. The visible part of
    /// the map is made anew as well: it is what the player's viewshed
    /// holds, and nothing where no actor is a player with a viewshed. What
    /// a player's viewshed newly holds is revealed from then on. While the
    /// debug switch is on, the whole map is visible and nothing new is
    /// revealed.
    pub open spec fn seen(&self, after: World) -> bool {
        &&& after == (World { actors: after.actors, map: after.map, ..*self })
        &&& after.map == (GameMap {
            revealed_tiles: after.map.revealed_tiles,
            visible_tiles: after.map.visible_tiles,
            ..self.map
        })
        &&& after.map.revealed_tiles.len() == self.map.revealed_tiles.len()
        &&& after.map.visible_tiles.len() == self.map.visible_tiles.len()
        &&& after.actors.len() == self.actors.len()
        &&& forall|i: int| 0 <= i < self.actors.len() ==> self.looked(#[trigger] after.actors[i], i)
        &&& forall|idx: int|
            0 <= idx < self.map.tiles.len() && self.map.revealed_tiles[idx]
                ==> #[trigger] after.map.revealed_tiles[idx]
        &&& forall|i: int, idx: int|
            #![trigger self.is_viewer(i), after.map.visible_tiles[idx]]
            self.is_viewer(i) && 0 <= idx < self.map.tiles.len() ==> after.map.visible_tiles[idx] == (
            self.godmode.0 || self.in_view(i, idx))
        &&& forall|i: int, idx: int|
            #![trigger self.is_viewer(i), after.map.revealed_tiles[idx]]
            self.is_viewer(i) && 0 <= idx < self.map.tiles.len() ==> after.map.revealed_tiles[idx] == (
            self.map.revealed_tiles[idx] || (!self.godmode.0 && self.looks(i) && self.lit_by(i, idx)))
        &&& (forall|i: int| !self.is_viewer(i)) ==> {
            &&& forall|idx: int|
                0 <= idx < self.map.tiles.len() ==> #[trigger] after.map.visible_tiles[idx]
                    == self.godmode.0
            &&& forall|idx: int|
                0 <= idx < self.map.tiles.len() ==> #[trigger] after.map.revealed_tiles[idx]
                    == self.map.revealed_tiles[idx]
        }
    }
}

impl VisibilitySystem {
    /// Computes anew every viewshed that asks for it, and then the visible
    /// part of the map: what the player's viewshed holds. What the player
    /// newly sees is revealed from then on. While the debug switch is on,
    /// the whole map is visible and nothing new is revealed.
    pub fn run(&mut self, ecs: &mut World)
        requires
            old(ecs).wf(),
        ensures
            final(ecs).wf(),
            old(ecs).seen(*final(ecs)),
    {
        let mut viewer: Option<(usize, bool)> = None;
        let mut i: usize = 0;
        while i < ecs.actors.len()
            invariant
                old(ecs).wf(),
                ecs.wf(),
                i <= ecs.actors.len(),
                *ecs == (World { actors: ecs.actors, ..*old(ecs) }),
                ecs.actors.len() == old(ecs).actors.len(),
                forall|k: int| 0 <= k < i ==> old(ecs).looked(#[trigger] ecs.actors[k], k),
                forall|k: int| i <= k < ecs.actors.len() ==> ecs.actors[k] == old(ecs).actors[k],
                viewer is None ==> forall|k: int| 0 <= k < i ==> !old(ecs).is_viewer(k),
                viewer matches Some((row, fresh)) ==> row < i && old(ecs).is_viewer(row as int) && fresh
                    == old(ecs).looks(row as int),
            decreases ecs.actors.len() - i,
        {
            let spot: Option<(i32, i32, i32)> = match (&ecs.actors[i].position, &ecs.actors[i].viewshed) {
                (Some(p), Some(v)) => if v.dirty {
                    Some((p.x, p.y, v.range))
                } else {
                    None
                },
                _ => None,
            };
            if ecs.actors[i].player.is_some() && ecs.actors[i].viewshed.is_some() {
                viewer = Some((i, spot.is_some()));
            }
            if let Some((x, y, range)) = spot {
                let points: Vec<Coord> = field_of_view(&ecs.map, x, y, range);
                if let Some(viewshed) = &mut ecs.actors[i].viewshed {
                    viewshed.dirty = false;
                    viewshed.visible_tiles = points;
                }
            }
            i += 1;
        }
        let ghost looked = *ecs;
        if ecs.godmode.0 {
            let mut idx: usize = 0;
            while idx < ecs.map.visible_tiles.len()
                invariant
                    ecs.wf(),
                    idx <= ecs.map.visible_tiles.len(),
                    *ecs == (World { map: ecs.map, ..looked }),
                    ecs.map == (GameMap { visible_tiles: ecs.map.visible_tiles, ..looked.map }),
                    forall|k: int| 0 <= k < idx ==> ecs.map.visible_tiles[k],
                decreases ecs.map.visible_tiles.len() - idx,
            {
                ecs.map.visible_tiles[idx] = true;
                idx += 1;
            }
        } else {
            match viewer {
                Some((row, fresh)) => {
                    if let Some(viewshed) = &ecs.actors[row].viewshed {
                        ecs.map.show(&viewshed.visible_tiles, fresh);
                    }
                },
                None => {
                    let nothing: Vec<Coord> = Vec::new();
                    ecs.map.show(&nothing, false);
                },
            }
        }
        proof {
            let w = old(ecs).map.width as int;
            let h = old(ecs).map.height as int;
            assert forall|k: int| #![trigger old(ecs).is_viewer(k)] old(ecs).is_viewer(k) implies viewer
                == Some((k as usize, old(ecs).looks(k))) by {
                if viewer is Some {
                    assert(old(ecs).actors[viewer.unwrap().0 as int].player is Some);
                    assert(old(ecs).actors[k].player is Some);
                }
            }
            assert(ecs.map.revealed_tiles.len() == old(ecs).map.revealed_tiles.len());
            if viewer is Some {
                let row = viewer.unwrap().0 as int;
                assert(old(ecs).looked(ecs.actors[row], row));
                assert forall|idx: int| 0 <= idx < old(ecs).map.tiles.len() implies (
                ecs.actors[row].viewshed.unwrap().visible_tiles@.contains(old(ecs).map.cell(idx))
                    <==> old(ecs).in_view(row, idx)) by {
                    lemma_cell_fits(idx, w, h);
                }
            }
            assert forall|k: int| 0 <= k < old(ecs).actors.len() implies old(ecs).looked(
                #[trigger] ecs.actors[k],
                k,
            ) by {
                assert(old(ecs).looked(looked.actors[k], k));
            }
        }
    }
}

} // verus!
