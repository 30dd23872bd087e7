use rltk::{Algorithm2D, BaseMap};
use rogue_core::{
    Coord, Entity, GameMap, GodMode, Player, Position, TileType, Viewshed, VisibilitySystem, World,
};

fn open_field(width: i32, height: i32) -> GameMap {
    let mut map = GameMap::new(width, height);
    for y in 1..height - 1 {
        for x in 1..width - 1 {
            map.carve(x, y);
        }
    }
    map.populate_blocked();
    map
}

fn watcher(world: &mut World, x: i32, y: i32, range: i32, player: bool) -> Entity {
    let e = world.create_entity().unwrap();
    let row = world.find(e).unwrap();
    world.actors[row].position = Some(Position { x, y });
    world.actors[row].viewshed = Some(Viewshed::new(range));
    if player {
        world.actors[row].player = Some(Player { number_of_moves: 0 });
        world.player_pos = Coord::new(x, y);
        world.player_entity = e;
    }
    e
}

fn seen_by(world: &World, e: Entity) -> Vec<Coord> {
    let mut v = world.actors[world.find(e).unwrap()].viewshed.clone().unwrap().visible_tiles;
    v.sort_by_key(|p| (p.y, p.x));
    v
}

#[test]
fn a_viewer_sees_its_own_cell_and_stays_in_bounds() {
    let mut w = World::new(open_field(20, 15));
    let e = watcher(&mut w, 1, 1, 8, false);
    VisibilitySystem {}.run(&mut w);
    let seen = seen_by(&w, e);
    assert!(seen.contains(&Coord::new(1, 1)));
    assert!(seen.iter().all(|p| p.x >= 0 && p.x < 20 && p.y >= 0 && p.y < 15));
    let mut unique = seen.clone();
    unique.dedup();
    assert_eq!(unique.len(), seen.len());
    assert!(seen.len() > 1);
}

#[test]
fn the_sweep_clears_the_request() {
    let mut w = World::new(open_field(20, 15));
    let e = watcher(&mut w, 5, 5, 4, false);
    let row = w.find(e).unwrap();
    assert!(w.actors[row].viewshed.as_ref().unwrap().dirty);
    VisibilitySystem {}.run(&mut w);
    let v = w.actors[row].viewshed.clone().unwrap();
    assert!(!v.dirty);
    assert_eq!(v.range, 4);
}

#[test]
fn a_viewshed_that_does_not_ask_is_left_alone() {
    let mut w = World::new(open_field(20, 15));
    let e = watcher(&mut w, 5, 5, 4, true);
    let other = watcher(&mut w, 8, 8, 4, false);
    for who in [e, other] {
        let row = w.find(who).unwrap();
        w.actors[row].viewshed =
            Some(Viewshed { visible_tiles: vec![Coord::new(9, 9)], range: 4, dirty: false });
    }
    let before = w.clone();
    VisibilitySystem {}.run(&mut w);
    assert_eq!(w.actors, before.actors);
    assert_eq!(w.map.revealed_tiles, before.map.revealed_tiles);
}

#[test]
fn the_map_shows_what_the_players_viewshed_holds() {
    let mut w = World::new(open_field(20, 15));
    let e = watcher(&mut w, 5, 5, 4, true);
    let row = w.find(e).unwrap();
    w.actors[row].viewshed = Some(Viewshed {
        visible_tiles: vec![Coord::new(9, 9), Coord::new(3, 2), Coord::new(20, 3), Coord::new(-1, 0)],
        range: 4,
        dirty: false,
    });
    // As a debug period leaves it: everything visible, nothing of it revealed.
    for v in w.map.visible_tiles.iter_mut() {
        *v = true;
    }
    let before = w.clone();
    VisibilitySystem {}.run(&mut w);
    for y in 0..15 {
        for x in 0..20 {
            let idx = w.map.map_index(x, y);
            assert_eq!(w.map.visible_tiles[idx], (x, y) == (9, 9) || (x, y) == (3, 2));
            assert!(!w.map.revealed_tiles[idx]);
        }
    }
    assert_eq!(w.actors, before.actors);
    let again = w.clone();
    VisibilitySystem {}.run(&mut w);
    assert_eq!(w, again);
}

#[test]
fn without_a_player_nothing_is_visible() {
    let mut w = World::new(open_field(20, 15));
    let e = watcher(&mut w, 5, 5, 4, false);
    for v in w.map.visible_tiles.iter_mut() {
        *v = true;
    }
    VisibilitySystem {}.run(&mut w);
    assert!(w.map.visible_tiles.iter().all(|v| !*v));
    assert!(w.map.revealed_tiles.iter().all(|r| !*r));
    assert!(seen_by(&w, e).contains(&Coord::new(5, 5)));
    w.godmode = GodMode(true);
    VisibilitySystem {}.run(&mut w);
    assert!(w.map.visible_tiles.iter().all(|v| *v));
    assert!(w.map.revealed_tiles.iter().all(|r| !*r));
}

#[test]
fn the_debug_view_ends_with_the_switch() {
    let mut w = World::new(open_field(30, 20));
    watcher(&mut w, 10, 10, 5, true);
    VisibilitySystem {}.run(&mut w);
    let revealed = w.map.revealed_tiles.clone();
    let visible = w.map.visible_tiles.clone();
    w.godmode = GodMode(true);
    VisibilitySystem {}.run(&mut w);
    assert!(w.map.visible_tiles.iter().all(|v| *v));
    w.godmode = GodMode(false);
    VisibilitySystem {}.run(&mut w);
    assert_eq!(w.map.visible_tiles, visible);
    assert_eq!(w.map.revealed_tiles, revealed);
}

#[test]
fn a_long_range_sees_the_whole_open_field() {
    let mut w = World::new(open_field(40, 30));
    let e = watcher(&mut w, 20, 15, 600, false);
    VisibilitySystem {}.run(&mut w);
    assert_eq!(seen_by(&w, e).len(), 40 * 30);
}

#[test]
fn range_limits_what_is_seen() {
    let mut w = World::new(open_field(40, 30));
    let e = watcher(&mut w, 20, 15, 3, false);
    VisibilitySystem {}.run(&mut w);
    let seen = seen_by(&w, e);
    assert!(seen.contains(&Coord::new(23, 15)));
    assert!(seen.contains(&Coord::new(17, 15)));
    assert!(!seen.contains(&Coord::new(24, 15)));
    assert!(!seen.contains(&Coord::new(20, 19)));
    assert!(seen.iter().all(|p| (p.x - 20).abs() <= 3 && (p.y - 15).abs() <= 3));
    let far = watcher(&mut w, 20, 15, 0, false);
    VisibilitySystem {}.run(&mut w);
    assert_eq!(seen_by(&w, far), vec![Coord::new(20, 15)]);
}

#[test]
fn walls_hide_what_lies_behind_them() {
    let mut map = open_field(20, 9);
    let wall = map.map_index(8, 4);
    map.tiles[wall] = TileType::Wall;
    let mut w = World::new(map);
    let e = watcher(&mut w, 5, 4, 8, false);
    VisibilitySystem {}.run(&mut w);
    let seen = seen_by(&w, e);
    assert!(seen.contains(&Coord::new(7, 4)));
    assert!(seen.contains(&Coord::new(8, 4)));
    assert!(!seen.contains(&Coord::new(9, 4)));
    assert!(!seen.contains(&Coord::new(10, 4)));
    assert!(!seen.contains(&Coord::new(11, 4)));
    assert!(seen.contains(&Coord::new(2, 4)));
}

#[test]
fn a_closed_room_hides_the_rest_of_the_map() {
    let mut map = GameMap::new(20, 20);
    for y in 5..=8 {
        for x in 5..=8 {
            map.carve(x, y);
        }
    }
    for y in 12..=15 {
        for x in 12..=15 {
            map.carve(x, y);
        }
    }
    let mut w = World::new(map);
    let e = watcher(&mut w, 6, 6, 12, false);
    VisibilitySystem {}.run(&mut w);
    let seen = seen_by(&w, e);
    assert!(seen.iter().all(|p| p.x >= 4 && p.x <= 9 && p.y >= 4 && p.y <= 9));
    assert!(seen.contains(&Coord::new(8, 8)));
    assert!(!seen.contains(&Coord::new(13, 13)));
}

#[test]
fn what_the_player_sees_is_visible_and_revealed() {
    let mut w = World::new(open_field(30, 20));
    let p = watcher(&mut w, 10, 10, 5, true);
    let other = watcher(&mut w, 25, 15, 5, false);
    VisibilitySystem {}.run(&mut w);
    let seen = seen_by(&w, p);
    for y in 0..20 {
        for x in 0..30 {
            let idx = w.map.map_index(x, y);
            let lit = seen.contains(&Coord::new(x, y));
            assert_eq!(w.map.visible_tiles[idx], lit);
            assert_eq!(w.map.revealed_tiles[idx], lit);
        }
    }
    let theirs = seen_by(&w, other);
    assert!(theirs.contains(&Coord::new(25, 15)));
    assert!(!w.map.visible_tiles[w.map.map_index(25, 15)]);
}

#[test]
fn revealed_tiles_stay_revealed() {
    let mut w = World::new(open_field(40, 10));
    let p = watcher(&mut w, 5, 5, 3, true);
    VisibilitySystem {}.run(&mut w);
    let first = w.map.revealed_tiles.clone();
    let row = w.find(p).unwrap();
    w.actors[row].position = Some(Position { x: 30, y: 5 });
    w.actors[row].viewshed.as_mut().unwrap().dirty = true;
    VisibilitySystem {}.run(&mut w);
    for i in 0..first.len() {
        if first[i] {
            assert!(w.map.revealed_tiles[i]);
        }
    }
    let old_spot = w.map.map_index(5, 5);
    let new_spot = w.map.map_index(30, 5);
    assert!(w.map.revealed_tiles[old_spot]);
    assert!(!w.map.visible_tiles[old_spot]);
    assert!(w.map.revealed_tiles[new_spot]);
    assert!(w.map.visible_tiles[new_spot]);
}

#[test]
fn the_debug_view_shows_all_and_reveals_nothing() {
    let mut w = World::new(open_field(30, 20));
    let p = watcher(&mut w, 10, 10, 5, true);
    VisibilitySystem {}.run(&mut w);
    let revealed = w.map.revealed_tiles.clone();
    let visible = w.map.visible_tiles.clone();

    w.godmode = GodMode(true);
    let row = w.find(p).unwrap();
    w.actors[row].position = Some(Position { x: 20, y: 10 });
    w.actors[row].viewshed.as_mut().unwrap().dirty = true;
    VisibilitySystem {}.run(&mut w);
    assert!(w.map.visible_tiles.iter().all(|v| *v));
    assert_eq!(w.map.revealed_tiles, revealed);

    w.godmode = GodMode(false);
    w.actors[row].position = Some(Position { x: 10, y: 10 });
    w.actors[row].viewshed.as_mut().unwrap().dirty = true;
    VisibilitySystem {}.run(&mut w);
    assert_eq!(w.map.revealed_tiles, revealed);
    assert_eq!(w.map.visible_tiles, visible);
}

#[test]
fn the_debug_view_holds_without_a_new_sweep() {
    let mut w = World::new(open_field(12, 12));
    watcher(&mut w, 5, 5, 3, true);
    VisibilitySystem {}.run(&mut w);
    w.godmode = GodMode(true);
    VisibilitySystem {}.run(&mut w);
    assert!(w.map.visible_tiles.iter().all(|v| *v));
    assert!(w.map.revealed_tiles.iter().any(|r| !*r));
}

#[test]
fn the_sweep_is_told_the_size_of_the_map() {
    let mut map = GameMap::new(7, 5);
    map.carve(2, 3);
    let size = map.dimensions();
    assert_eq!((size.x, size.y), (7, 5));
    assert!(Algorithm2D::in_bounds(&map, rltk::Point::new(6, 4)));
    assert!(!Algorithm2D::in_bounds(&map, rltk::Point::new(7, 4)));
    assert!(!Algorithm2D::in_bounds(&map, rltk::Point::new(6, 5)));
    assert_eq!(map.point2d_to_index(rltk::Point::new(2, 3)), map.map_index(2, 3));
    assert!(!map.is_opaque(map.map_index(2, 3)));
    assert!(map.is_opaque(map.map_index(3, 3)));
    assert!(map.is_opaque(35));
}
