use rogue_core::map::{filled, CARDINAL_COST, DIAGONAL_COST};
use rogue_core::{Entity, GameMap, Rect, TileType};

fn open_field(width: i32, height: i32) -> GameMap {
    let mut map = GameMap::new(width, height);
    for y in 1..height - 1 {
        for x in 1..width - 1 {
            map.carve(x, y);
        }
    }
    map.populate_blocked();
    map
}

#[test]
fn new_map_is_all_wall() {
    let map = GameMap::new(7, 5);
    assert!(map.is_well_formed());
    assert_eq!(map.tiles.len(), 35);
    assert!(map.tiles.iter().all(|t| *t == TileType::Wall));
    assert!(map.revealed_tiles.iter().all(|r| !*r));
    assert!(map.visible_tiles.iter().all(|v| !*v));
    assert!(map.blocked.iter().all(|b| !*b));
    assert!(map.tile_content.iter().all(|c| c.is_empty()));
    assert!(map.rooms.is_empty());
}

#[test]
fn index_goes_by_the_stored_width() {
    let map = GameMap::new(7, 5);
    assert_eq!(map.map_index(0, 0), 0);
    assert_eq!(map.map_index(6, 0), 6);
    assert_eq!(map.map_index(0, 1), 7);
    assert_eq!(map.map_index(3, 4), 31);
    assert_eq!(map.cell_of(31), (3, 4));
    let wide = GameMap::new(100, 3);
    assert_eq!(wide.map_index(99, 2), 299);
    assert_eq!(wide.cell_of(299), (99, 2));
}

#[test]
fn ill_formed_maps_are_told_apart() {
    let mut map = GameMap::new(4, 4);
    assert!(map.is_well_formed());
    map.blocked.pop();
    assert!(!map.is_well_formed());
    let mut other = GameMap::new(4, 4);
    other.width = 5;
    assert!(!other.is_well_formed());
    let mut third = GameMap::new(4, 4);
    third.height = 0;
    assert!(!third.is_well_formed());
}

#[test]
fn filled_repeats_the_value() {
    assert_eq!(filled(7u8, 3), vec![7u8, 7, 7]);
    assert_eq!(filled(true, 0), Vec::<bool>::new());
}

#[test]
fn room_is_carved_without_its_first_row_and_column() {
    let mut map = GameMap::new(10, 8);
    let room = Rect::new(2, 1, 4, 3);
    map.apply_room_to_map(&room);
    for y in 0..8 {
        for x in 0..10 {
            let inside = x > 2 && x <= 6 && y > 1 && y <= 4;
            let expected = if inside { TileType::Floor } else { TileType::Wall };
            assert_eq!(map.tiles[map.map_index(x, y)], expected, "at {} {}", x, y);
        }
    }
}

#[test]
fn horizontal_tunnel_runs_either_way() {
    let mut a = GameMap::new(10, 4);
    a.apply_horizontal_tunnel(2, 6, 1);
    let mut b = GameMap::new(10, 4);
    b.apply_horizontal_tunnel(6, 2, 1);
    assert_eq!(a, b);
    for x in 0..10 {
        let expected = if (2..=6).contains(&x) { TileType::Floor } else { TileType::Wall };
        assert_eq!(a.tiles[a.map_index(x, 1)], expected);
        assert_eq!(a.tiles[a.map_index(x, 2)], TileType::Wall);
    }
}

#[test]
fn vertical_tunnel_runs_either_way() {
    let mut a = GameMap::new(5, 9);
    a.apply_vertical_tunnel(7, 3, 2);
    for y in 0..9 {
        let expected = if (3..=7).contains(&y) { TileType::Floor } else { TileType::Wall };
        assert_eq!(a.tiles[a.map_index(2, y)], expected);
        assert_eq!(a.tiles[a.map_index(1, y)], TileType::Wall);
    }
}

#[test]
fn tunnels_go_by_tile_index() {
    let floors = |m: &GameMap| -> Vec<usize> {
        (0..m.tiles.len()).filter(|i| m.tiles[*i] == TileType::Floor).collect()
    };
    // One column beyond the far edge: the index is that of the first cell of the next row.
    let mut map = GameMap::new(6, 4);
    map.apply_horizontal_tunnel(6, 6, 0);
    assert_eq!(floors(&map), vec![6]);
    assert_eq!(map.tiles[map.map_index(0, 1)], TileType::Floor);

    let mut map = GameMap::new(6, 4);
    map.apply_horizontal_tunnel(4, 8, 1);
    assert_eq!(floors(&map), vec![10, 11, 12, 13, 14]);

    let mut map = GameMap::new(6, 4);
    map.apply_horizontal_tunnel(-5, 50, 3);
    assert_eq!(floors(&map), (13..24).collect::<Vec<usize>>());

    let mut map = GameMap::new(6, 4);
    map.apply_vertical_tunnel(0, 3, 6);
    assert_eq!(floors(&map), vec![6, 12, 18]);

    let mut map = GameMap::new(6, 4);
    map.apply_vertical_tunnel(0, 3, 13);
    assert_eq!(floors(&map), vec![13, 19]);

    let mut map = GameMap::new(6, 4);
    map.apply_vertical_tunnel(0, 3, -1);
    assert_eq!(floors(&map), vec![5, 11, 17]);

    let mut map = GameMap::new(6, 4);
    map.apply_vertical_tunnel(i32::MIN, i32::MAX, 5);
    assert_eq!(floors(&map), vec![5, 11, 17, 23]);
}

#[test]
fn tunnels_write_no_tile_outside_the_map() {
    let mut map = GameMap::new(6, 4);
    let before = map.clone();
    map.apply_horizontal_tunnel(0, 5, 4);
    map.apply_horizontal_tunnel(0, 5, -1);
    map.apply_horizontal_tunnel(i32::MAX, i32::MAX, i32::MAX);
    map.apply_horizontal_tunnel(i32::MIN, i32::MIN, i32::MIN);
    map.apply_vertical_tunnel(4, 9, 0);
    map.apply_vertical_tunnel(-9, -1, 0);
    map.apply_vertical_tunnel(0, 3, 24);
    map.apply_vertical_tunnel(0, 3, i32::MAX);
    map.apply_vertical_tunnel(0, 3, i32::MIN);
    assert_eq!(map, before);
    assert!(map.is_well_formed());
    // A far column still has a row whose tile is one of the map.
    map.apply_vertical_tunnel(i32::MIN, i32::MAX, i32::MAX);
    assert_eq!(map.tiles[1], TileType::Floor);
    map.apply_vertical_tunnel(i32::MIN, i32::MAX, i32::MIN);
    assert_eq!(map.tiles[4], TileType::Floor);
    assert_eq!(map.tiles.iter().filter(|t| **t == TileType::Floor).count(), 8);
    map.apply_horizontal_tunnel(i32::MIN, i32::MAX, 0);
    assert_eq!(map.tiles[0], TileType::Wall);
    assert!(map.tiles.iter().skip(1).all(|t| *t == TileType::Floor));
    assert!(map.is_well_formed());
}

#[test]
fn tunnels_never_carve_the_first_tile() {
    let mut map = GameMap::new(6, 4);
    map.apply_horizontal_tunnel(0, 3, 0);
    assert_eq!(map.tiles[0], TileType::Wall);
    assert_eq!(map.tiles[1], TileType::Floor);
    map.apply_vertical_tunnel(0, 2, 0);
    assert_eq!(map.tiles[0], TileType::Wall);
    assert_eq!(map.tiles[map.map_index(0, 1)], TileType::Floor);
}

#[test]
fn corridor_bends_as_asked() {
    let mut first = GameMap::new(10, 10);
    first.apply_corridor((2, 2), (6, 7), true);
    assert_eq!(first.tiles[first.map_index(6, 2)], TileType::Floor);
    assert_eq!(first.tiles[first.map_index(2, 7)], TileType::Wall);
    let mut second = GameMap::new(10, 10);
    second.apply_corridor((2, 2), (6, 7), false);
    assert_eq!(second.tiles[second.map_index(2, 7)], TileType::Floor);
    assert_eq!(second.tiles[second.map_index(6, 2)], TileType::Wall);
    let floors = |m: &GameMap| m.tiles.iter().filter(|t| **t == TileType::Floor).count();
    assert_eq!(floors(&first), 10);
    assert_eq!(floors(&second), 10);
}

#[test]
fn blocked_follows_the_walls() {
    let mut map = GameMap::new(5, 5);
    map.carve(2, 2);
    map.blocked[0] = false;
    map.populate_blocked();
    for i in 0..25 {
        assert_eq!(map.blocked[i], i != 12);
    }
}

#[test]
fn content_index_is_cleared() {
    let mut map = GameMap::new(3, 3);
    map.tile_content[4].push(Entity { id: 9 });
    map.tile_content[0].push(Entity { id: 1 });
    map.clear_content_index();
    assert!(map.tile_content.iter().all(|c| c.is_empty()));
    assert_eq!(map.tile_content.len(), 9);
}

#[test]
fn exits_are_listed_with_their_costs() {
    let map = open_field(7, 7);
    let idx = map.map_index(3, 3);
    let exits = map.get_available_exits(idx);
    assert_eq!(
        exits,
        vec![
            (idx - 1, CARDINAL_COST),
            (idx + 1, CARDINAL_COST),
            (idx - 7, CARDINAL_COST),
            (idx + 7, CARDINAL_COST),
            (idx - 8, DIAGONAL_COST),
            (idx - 6, DIAGONAL_COST),
            (idx + 6, DIAGONAL_COST),
            (idx + 8, DIAGONAL_COST),
        ]
    );
    assert_eq!(CARDINAL_COST, 100);
    assert_eq!(DIAGONAL_COST, 145);
}

#[test]
fn blocked_tiles_are_no_exits() {
    let mut map = open_field(7, 7);
    let idx = map.map_index(3, 3);
    map.blocked[idx + 1] = true;
    map.blocked[idx - 8] = true;
    let exits = map.get_available_exits(idx);
    assert_eq!(
        exits,
        vec![
            (idx - 1, CARDINAL_COST),
            (idx - 7, CARDINAL_COST),
            (idx + 7, CARDINAL_COST),
            (idx - 6, DIAGONAL_COST),
            (idx + 6, DIAGONAL_COST),
            (idx + 8, DIAGONAL_COST),
        ]
    );
}

#[test]
fn exits_stop_at_the_rim() {
    let map = open_field(5, 5);
    let corner = map.map_index(1, 1);
    assert_eq!(
        map.get_available_exits(corner),
        vec![(corner + 1, CARDINAL_COST), (corner + 5, CARDINAL_COST), (corner + 6, DIAGONAL_COST)]
    );
    assert_eq!(map.get_available_exits(25), vec![]);
    assert_eq!(map.get_available_exits(usize::MAX), vec![]);
}

#[test]
fn exit_validity_checks_rim_and_blocking() {
    let mut map = open_field(5, 5);
    assert!(map.is_exit_valid(1, 1));
    assert!(map.is_exit_valid(3, 3));
    assert!(!map.is_exit_valid(0, 2));
    assert!(!map.is_exit_valid(2, 0));
    assert!(!map.is_exit_valid(5, 2));
    assert!(!map.is_exit_valid(2, 5));
    assert!(!map.is_exit_valid(-1, -1));
    assert!(!map.is_exit_valid(4, 4));
    let idx = map.map_index(2, 2);
    map.blocked[idx] = true;
    assert!(!map.is_exit_valid(2, 2));
}
