use rogue_core::map_builder::{MAX_ROOMS, MAX_SIZE, MIN_SIZE};
use rogue_core::{GameMap, Rect, TileType, MAP_COUNT, MAP_HEIGHT, MAP_WIDTH};

fn floor(map: &GameMap, x: i32, y: i32) -> bool {
    x >= 0 && x < map.width && y >= 0 && y < map.height && map.tiles[map.map_index(x, y)] == TileType::Floor
}

fn reachable_from(map: &GameMap, start: (i32, i32)) -> Vec<bool> {
    let mut seen = vec![false; map.tiles.len()];
    let mut todo = vec![start];
    while let Some((x, y)) = todo.pop() {
        if !floor(map, x, y) || seen[map.map_index(x, y)] {
            continue;
        }
        seen[map.map_index(x, y)] = true;
        todo.push((x + 1, y));
        todo.push((x - 1, y));
        todo.push((x, y + 1));
        todo.push((x, y - 1));
    }
    seen
}

fn on_stretch(a: i32, b: i32, v: i32) -> bool {
    (a <= v && v <= b) || (b <= v && v <= a)
}

fn check(map: &GameMap, max_rooms: usize, min_size: i32, max_size: i32) {
    assert!(map.is_well_formed());
    assert!(map.rooms.len() <= max_rooms);
    if max_rooms > 0 {
        assert!(!map.rooms.is_empty());
    }
    for (i, a) in map.rooms.iter().enumerate() {
        assert!(a.x2 - a.x1 >= min_size && a.x2 - a.x1 < max_size);
        assert!(a.y2 - a.y1 >= min_size && a.y2 - a.y1 < max_size);
        assert!(a.x1 >= 0 && a.x2 < map.width - 1);
        assert!(a.y1 >= 0 && a.y2 < map.height - 1);
        for b in map.rooms.iter().skip(i + 1) {
            assert!(!a.intersect(b));
            assert!(!b.intersect(a));
        }
        for y in a.y1 + 1..=a.y2 {
            for x in a.x1 + 1..=a.x2 {
                assert!(floor(map, x, y));
            }
        }
    }
    if let Some(first) = map.rooms.first() {
        let seen = reachable_from(map, first.center());
        for room in map.rooms.iter() {
            let (x, y) = room.center();
            assert!(seen[map.map_index(x, y)]);
        }
        for i in 0..map.tiles.len() {
            assert_eq!(seen[i], map.tiles[i] == TileType::Floor);
        }
    } else {
        assert!(map.tiles.iter().all(|t| *t == TileType::Wall));
    }
    // Every floor is part of a room or of a corridor between two rooms placed in a row.
    for y in 0..map.height {
        for x in 0..map.width {
            if !floor(map, x, y) {
                continue;
            }
            let in_room = map.rooms.iter().any(|r| r.x1 < x && x <= r.x2 && r.y1 < y && y <= r.y2);
            let in_corridor = map.rooms.windows(2).any(|pair| {
                let (fx, fy) = pair[0].center();
                let (tx, ty) = pair[1].center();
                let row_first = (y == fy && on_stretch(fx, tx, x)) || (x == tx && on_stretch(fy, ty, y));
                let column_first = (x == fx && on_stretch(fy, ty, y)) || (y == ty && on_stretch(fx, tx, x));
                row_first || column_first
            });
            assert!(in_room || in_corridor, "floor at {} {}", x, y);
        }
    }
    for x in 0..map.width {
        assert!(!floor(map, x, 0));
        assert!(!floor(map, x, map.height - 1));
    }
    for y in 0..map.height {
        assert!(!floor(map, 0, y));
        assert!(!floor(map, map.width - 1, y));
    }
    assert!(map.revealed_tiles.iter().all(|r| !*r));
    assert!(map.visible_tiles.iter().all(|v| !*v));
    assert!(map.blocked.iter().all(|b| !*b));
    assert!(map.tile_content.iter().all(|c| c.is_empty()));
}

#[test]
fn the_dungeon_has_the_usual_size() {
    assert_eq!(MAP_WIDTH, 80);
    assert_eq!(MAP_HEIGHT, 43);
    assert_eq!(MAP_COUNT, 80 * 43);
    assert_eq!((MAX_ROOMS, MIN_SIZE, MAX_SIZE), (30, 6, 10));
    let map = GameMap::new_map_rooms_and_corridors();
    assert_eq!(map.width, 80);
    assert_eq!(map.height, 43);
    assert_eq!(map.tiles.len(), 3440);
}

#[test]
fn rooms_keep_apart_and_are_joined() {
    for _ in 0..25 {
        let map = GameMap::new_map_rooms_and_corridors();
        check(&map, 30, 6, 10);
    }
}

#[test]
fn other_sizes_work_as_well() {
    for _ in 0..25 {
        check(&GameMap::generate(30, 20, 8, 3, 6), 8, 3, 6);
        check(&GameMap::generate(4, 4, 3, 2, 3), 3, 2, 3);
        check(&GameMap::generate(200, 9, 40, 2, 8), 40, 2, 8);
    }
}

#[test]
fn a_crowded_map_still_holds_its_first_room() {
    for _ in 0..25 {
        let map = GameMap::generate(12, 12, 50, 8, 10);
        check(&map, 50, 8, 10);
        assert_eq!(map.rooms.len(), 1);
    }
}

#[test]
fn no_rooms_asked_for_none_made() {
    let map = GameMap::generate(20, 20, 0, 3, 6);
    check(&map, 0, 3, 6);
    assert_eq!(map, GameMap::new(20, 20));
}

#[test]
fn maps_differ_from_run_to_run() {
    let first = GameMap::new_map_rooms_and_corridors();
    let differs = (0..20).any(|_| GameMap::new_map_rooms_and_corridors() != first);
    assert!(differs);
}

#[test]
fn the_first_room_is_taken_as_it_is() {
    let mut map = GameMap::new(20, 15);
    let room = Rect::new(2, 3, 5, 4);
    assert!(map.room_fits(&room));
    assert!(map.add_room(room, true));
    assert_eq!(map.rooms, vec![room]);
    let mut expected = GameMap::new(20, 15);
    expected.apply_room_to_map(&room);
    expected.rooms.push(room);
    assert_eq!(map, expected);
}

#[test]
fn a_room_that_overlaps_is_turned_down() {
    let mut map = GameMap::new(30, 20);
    assert!(map.add_room(Rect::new(2, 2, 6, 6), true));
    let before = map.clone();
    for room in [Rect::new(5, 5, 6, 6), Rect::new(8, 2, 4, 4), Rect::new(2, 8, 4, 4), Rect::new(3, 3, 2, 2)] {
        assert!(!map.room_fits(&room));
        assert!(!map.add_room(room, false));
        assert_eq!(map, before);
    }
    assert!(map.room_fits(&Rect::new(9, 2, 4, 4)));
}

#[test]
fn a_new_room_is_joined_to_the_one_before() {
    let first = Rect::new(2, 2, 6, 6);
    let second = Rect::new(15, 10, 6, 6);
    for horizontal_first in [true, false] {
        let mut map = GameMap::new(30, 20);
        assert!(map.add_room(first, true));
        assert!(map.add_room(second, horizontal_first));
        assert_eq!(map.rooms, vec![first, second]);
        let mut expected = GameMap::new(30, 20);
        expected.apply_room_to_map(&first);
        expected.apply_room_to_map(&second);
        assert_eq!(first.center(), (5, 5));
        assert_eq!(second.center(), (18, 13));
        if horizontal_first {
            expected.apply_horizontal_tunnel(5, 18, 5);
            expected.apply_vertical_tunnel(5, 13, 18);
        } else {
            expected.apply_vertical_tunnel(5, 13, 5);
            expected.apply_horizontal_tunnel(5, 18, 13);
        }
        expected.rooms = vec![first, second];
        assert_eq!(map, expected);
        let corner = if horizontal_first { (18, 5) } else { (5, 13) };
        let other = if horizontal_first { (5, 13) } else { (18, 5) };
        assert!(floor(&map, corner.0, corner.1));
        assert!(!floor(&map, other.0, other.1));
        check(&map, 2, 6, 7);
    }
}

#[test]
fn a_third_room_is_joined_to_the_second() {
    let mut map = GameMap::new(40, 30);
    assert!(map.add_room(Rect::new(2, 2, 4, 4), true));
    assert!(map.add_room(Rect::new(30, 2, 4, 4), true));
    assert!(map.add_room(Rect::new(30, 20, 4, 4), true));
    assert!(floor(&map, 32, 12));
    assert!(!floor(&map, 4, 12));
    check(&map, 3, 4, 5);
}
