use rogue_core::{
    get_item, player_input, toggle_godmode, try_move_player, CombatStats, Coord, Entity, GameMap,
    GodMode, InInventory, Intent, Item, ItemCollectionSystem, LogEntry, MapIndexingSystem, Name,
    Player, Position, RunState, State, Viewshed, WantsToMelee, WantsToPickupItem, BlocksTile,
};

fn open_field(width: i32, height: i32) -> GameMap {
    let mut map = GameMap::new(width, height);
    for y in 1..height - 1 {
        for x in 1..width - 1 {
            map.carve(x, y);
        }
    }
    map.populate_blocked();
    map
}

fn game(x: i32, y: i32) -> (State, Entity) {
    let mut gs = State::new(open_field(10, 8));
    let e = gs.ecs.create_entity().unwrap();
    let a = &mut gs.ecs.actors[0];
    a.position = Some(Position { x, y });
    a.viewshed = Some(Viewshed { visible_tiles: vec![], range: 8, dirty: false });
    a.player = Some(Player { number_of_moves: 0 });
    a.name = Some(Name { name: "Hero".to_string() });
    a.combat_stats = Some(CombatStats { max_hp: 30, hp: 30, defense: 2, power: 5 });
    gs.ecs.player_pos = Coord::new(x, y);
    gs.ecs.player_entity = e;
    (gs, e)
}

fn monster(gs: &mut State, x: i32, y: i32, name: Option<&str>, stats: bool) -> Entity {
    let e = gs.ecs.create_entity().unwrap();
    let row = gs.ecs.find(e).unwrap();
    let a = &mut gs.ecs.actors[row];
    a.position = Some(Position { x, y });
    a.blocks_tile = Some(BlocksTile {});
    a.name = name.map(|n| Name { name: n.to_string() });
    if stats {
        a.combat_stats = Some(CombatStats { max_hp: 8, hp: 8, defense: 1, power: 3 });
    }
    e
}

fn item(gs: &mut State, x: i32, y: i32, name: &str) -> Entity {
    let e = gs.ecs.create_entity().unwrap();
    let row = gs.ecs.find(e).unwrap();
    let a = &mut gs.ecs.actors[row];
    a.position = Some(Position { x, y });
    a.item = Some(Item {});
    a.name = Some(Name { name: name.to_string() });
    e
}

#[test]
fn a_step_onto_free_floor_moves_the_player() {
    let (mut gs, _) = game(4, 4);
    try_move_player(1, -1, &mut gs);
    let a = &gs.ecs.actors[0];
    assert_eq!(a.position, Some(Position { x: 5, y: 3 }));
    assert_eq!(gs.ecs.player_pos, Coord::new(5, 3));
    assert!(a.viewshed.as_ref().unwrap().dirty);
    assert_eq!(a.player, Some(Player { number_of_moves: 1 }));
    assert_eq!(a.wants_to_melee, None);
    assert!(gs.ecs.is_well_formed());
}

#[test]
fn a_wall_stops_the_player() {
    let (mut gs, _) = game(4, 4);
    let idx = gs.ecs.map.map_index(5, 4);
    gs.ecs.map.blocked[idx] = true;
    let before = gs.clone();
    try_move_player(1, 0, &mut gs);
    assert_eq!(gs, before);
}

#[test]
fn the_rim_of_the_map_stops_the_player() {
    let (mut gs, _) = game(1, 1);
    let before = gs.clone();
    try_move_player(-1, 0, &mut gs);
    assert_eq!(gs, before);
    try_move_player(0, -1, &mut gs);
    assert_eq!(gs, before);
    try_move_player(i32::MAX, i32::MAX, &mut gs);
    assert_eq!(gs, before);
    try_move_player(i32::MIN, 0, &mut gs);
    assert_eq!(gs, before);
    let (mut far, _) = game(8, 6);
    let unmoved = far.clone();
    try_move_player(1, 0, &mut far);
    assert_eq!(far, unmoved);
    try_move_player(0, 1, &mut far);
    assert_eq!(far, unmoved);
}

#[test]
fn the_debug_switch_lets_the_player_pass() {
    let (mut gs, _) = game(4, 4);
    let idx = gs.ecs.map.map_index(5, 4);
    gs.ecs.map.blocked[idx] = true;
    gs.ecs.godmode = GodMode(true);
    try_move_player(1, 0, &mut gs);
    assert_eq!(gs.ecs.actors[0].position, Some(Position { x: 5, y: 4 }));
}

#[test]
fn a_step_onto_a_fighter_is_an_attack() {
    let (mut gs, _) = game(4, 4);
    let orc = monster(&mut gs, 5, 4, Some("Orc"), true);
    MapIndexingSystem {}.run(&mut gs.ecs);
    try_move_player(1, 0, &mut gs);
    let a = &gs.ecs.actors[0];
    assert_eq!(a.wants_to_melee, Some(WantsToMelee { target: orc }));
    assert_eq!(a.position, Some(Position { x: 4, y: 4 }));
    assert_eq!(a.player, Some(Player { number_of_moves: 0 }));
    assert!(!a.viewshed.as_ref().unwrap().dirty);
    assert_eq!(gs.ecs.player_pos, Coord::new(4, 4));
}

#[test]
fn the_first_fighter_on_the_tile_is_attacked() {
    let (mut gs, _) = game(4, 4);
    let nameless = monster(&mut gs, 5, 4, None, true);
    let statue = monster(&mut gs, 5, 4, Some("Statue"), false);
    let orc = monster(&mut gs, 5, 4, Some("Orc"), true);
    let rat = monster(&mut gs, 5, 4, Some("Rat"), true);
    MapIndexingSystem {}.run(&mut gs.ecs);
    let idx = gs.ecs.map.map_index(5, 4);
    assert_eq!(gs.ecs.map.tile_content[idx], vec![nameless, statue, orc, rat]);
    try_move_player(1, 0, &mut gs);
    assert_eq!(gs.ecs.actors[0].wants_to_melee, Some(WantsToMelee { target: orc }));
}

#[test]
fn what_cannot_be_attacked_only_blocks() {
    let (mut gs, _) = game(4, 4);
    monster(&mut gs, 5, 4, Some("Statue"), false);
    MapIndexingSystem {}.run(&mut gs.ecs);
    let before = gs.clone();
    try_move_player(1, 0, &mut gs);
    assert_eq!(gs, before);
}

#[test]
fn without_a_player_nothing_moves() {
    let mut gs = State::new(open_field(10, 8));
    monster(&mut gs, 5, 4, Some("Orc"), true);
    let before = gs.clone();
    try_move_player(1, 0, &mut gs);
    assert_eq!(gs, before);
}

#[test]
fn the_step_counter_stops_at_its_end() {
    let (mut gs, _) = game(4, 4);
    gs.ecs.actors[0].player = Some(Player { number_of_moves: i32::MAX });
    try_move_player(1, 0, &mut gs);
    assert_eq!(gs.ecs.actors[0].player, Some(Player { number_of_moves: i32::MAX }));
    assert_eq!(gs.ecs.actors[0].position, Some(Position { x: 5, y: 4 }));
}

#[test]
fn the_debug_switch_toggles() {
    let (mut gs, _) = game(4, 4);
    let before = gs.clone();
    toggle_godmode(&mut gs);
    assert_eq!(gs.ecs.godmode, GodMode(true));
    toggle_godmode(&mut gs);
    assert_eq!(gs, before);
}

#[test]
fn input_decides_the_next_phase() {
    let (mut gs, _) = game(4, 4);
    let before = gs.clone();
    assert_eq!(player_input(&mut gs, Intent::Idle), RunState::AwaitingInput);
    assert_eq!(gs, before);
    assert_eq!(player_input(&mut gs, Intent::Move { dx: 0, dy: 1 }), RunState::PlayerTurn);
    assert_eq!(gs.ecs.actors[0].position, Some(Position { x: 4, y: 5 }));
    assert_eq!(player_input(&mut gs, Intent::ToggleGodMode), RunState::PlayerTurn);
    assert_eq!(gs.ecs.godmode, GodMode(true));
    assert_eq!(player_input(&mut gs, Intent::PickUp), RunState::PlayerTurn);
    assert_eq!(gs.ecs.log.entries, vec![LogEntry::NothingToPickUp]);
    let (mut walled, _) = game(1, 1);
    assert_eq!(player_input(&mut walled, Intent::Move { dx: -1, dy: 0 }), RunState::PlayerTurn);
    assert_eq!(walled.ecs.actors[0].position, Some(Position { x: 1, y: 1 }));
}

#[test]
fn picking_up_where_nothing_lies_is_logged() {
    let (mut gs, _) = game(4, 4);
    item(&mut gs, 5, 4, "Potion");
    get_item(&mut gs.ecs);
    assert_eq!(gs.ecs.log.entries, vec![LogEntry::NothingToPickUp]);
    assert_eq!(gs.ecs.actors[0].wants_to_pickup, None);
}

#[test]
fn picking_up_asks_for_the_item_underfoot() {
    let (mut gs, hero) = game(4, 4);
    item(&mut gs, 5, 4, "Scroll");
    let potion = item(&mut gs, 4, 4, "Potion");
    monster(&mut gs, 4, 4, Some("Rat"), true);
    get_item(&mut gs.ecs);
    assert!(gs.ecs.log.entries.is_empty());
    assert_eq!(
        gs.ecs.actors[0].wants_to_pickup,
        Some(WantsToPickupItem { collected_by: hero, item: potion })
    );
}

#[test]
fn of_two_items_underfoot_the_later_is_taken() {
    let (mut gs, hero) = game(4, 4);
    item(&mut gs, 4, 4, "Scroll");
    let potion = item(&mut gs, 4, 4, "Potion");
    get_item(&mut gs.ecs);
    assert_eq!(
        gs.ecs.actors[0].wants_to_pickup,
        Some(WantsToPickupItem { collected_by: hero, item: potion })
    );
}

#[test]
fn a_player_that_left_the_table_picks_nothing_up() {
    let (mut gs, _) = game(4, 4);
    item(&mut gs, 4, 4, "Potion");
    gs.ecs.player_entity = Entity { id: 99 };
    let before = gs.clone();
    get_item(&mut gs.ecs);
    assert_eq!(gs, before);
}

#[test]
fn picked_items_go_to_the_backpack() {
    let (mut gs, hero) = game(4, 4);
    let potion = item(&mut gs, 4, 4, "Potion");
    get_item(&mut gs.ecs);
    ItemCollectionSystem {}.run(&mut gs.ecs);
    let row = gs.ecs.find(potion).unwrap();
    assert_eq!(gs.ecs.actors[row].position, None);
    assert_eq!(gs.ecs.actors[row].in_inventory, Some(InInventory { owner: hero }));
    assert_eq!(gs.ecs.actors[0].wants_to_pickup, None);
    assert_eq!(gs.ecs.log.entries, vec![LogEntry::PickedUp { item: Some("Potion".to_string()) }]);
    assert!(gs.ecs.is_well_formed());
}

#[test]
fn others_pick_up_without_a_word_and_lost_items_are_passed_over() {
    let (mut gs, hero) = game(4, 4);
    let potion = item(&mut gs, 6, 6, "Potion");
    let thief = monster(&mut gs, 6, 6, Some("Thief"), true);
    let row = gs.ecs.find(thief).unwrap();
    gs.ecs.actors[row].wants_to_pickup = Some(WantsToPickupItem { collected_by: thief, item: potion });
    gs.ecs.actors[0].wants_to_pickup =
        Some(WantsToPickupItem { collected_by: hero, item: Entity { id: 1234 } });
    ItemCollectionSystem {}.run(&mut gs.ecs);
    let p = gs.ecs.find(potion).unwrap();
    assert_eq!(gs.ecs.actors[p].in_inventory, Some(InInventory { owner: thief }));
    assert_eq!(gs.ecs.actors[p].position, None);
    assert!(gs.ecs.log.entries.is_empty());
    assert_eq!(gs.ecs.actors[0].wants_to_pickup, None);
    assert_eq!(gs.ecs.actors[row].wants_to_pickup, None);
}

#[test]
fn the_map_lists_who_stands_where() {
    let (mut gs, hero) = game(4, 4);
    let orc = monster(&mut gs, 5, 4, Some("Orc"), true);
    let potion = item(&mut gs, 5, 4, "Potion");
    let ghost = gs.ecs.create_entity().unwrap();
    gs.ecs.map.tile_content[3].push(Entity { id: 50 });
    let stale = gs.ecs.map.map_index(2, 2);
    gs.ecs.map.blocked[stale] = true;
    MapIndexingSystem {}.run(&mut gs.ecs);
    let map = &gs.ecs.map;
    assert_eq!(map.tile_content[map.map_index(4, 4)], vec![hero]);
    assert_eq!(map.tile_content[map.map_index(5, 4)], vec![orc, potion]);
    assert!(map.tile_content[3].is_empty());
    assert!(gs.ecs.find(ghost).is_some());
    for y in 0..8 {
        for x in 0..10 {
            let idx = map.map_index(x, y);
            let wall = map.tiles[idx] == rogue_core::TileType::Wall;
            assert_eq!(map.blocked[idx], wall || (x == 5 && y == 4), "at {} {}", x, y);
        }
    }
}
