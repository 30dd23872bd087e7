use rogue_core::{
    Actor, Coord, Entity, GameMap, GodMode, Monster, Name, Player, Position, RunState, Viewshed,
    World,
};

fn world() -> World {
    World::new(GameMap::new(10, 10))
}

#[test]
fn a_new_world_is_empty_and_sound() {
    let w = world();
    assert!(w.is_well_formed());
    assert!(w.actors.is_empty());
    assert_eq!(w.run_state, RunState::PreRun);
    assert_eq!(w.godmode, GodMode(false));
    assert!(!w.game_over);
    assert!(w.log.entries.is_empty());
    assert_eq!(w.player_pos, Coord::new(0, 0));
    assert_eq!((w.melee_reach, w.forget_distance), (15, 80));
}

#[test]
fn new_actors_get_new_identifiers() {
    let mut w = world();
    let a = w.create_entity().unwrap();
    let b = w.create_entity().unwrap();
    let c = w.create_entity().unwrap();
    assert_eq!((a, b, c), (Entity { id: 0 }, Entity { id: 1 }, Entity { id: 2 }));
    assert_eq!(w.actors.len(), 3);
    assert_eq!(w.actors[1], Actor::new(b));
    assert_eq!(w.actors[1].position, None);
    assert_eq!(w.actors[1].name, None);
    assert!(w.is_well_formed());
    w.actors.remove(1);
    let d = w.create_entity().unwrap();
    assert_eq!(d, Entity { id: 3 });
    assert!(w.is_well_formed());
}

#[test]
fn identifiers_run_out() {
    let mut w = world();
    w.next_id = u32::MAX - 1;
    assert_eq!(w.create_entity(), Some(Entity { id: u32::MAX - 1 }));
    let before = w.clone();
    assert_eq!(w.create_entity(), None);
    assert_eq!(w, before);
}

#[test]
fn actors_are_found_by_identifier() {
    let mut w = world();
    let a = w.create_entity().unwrap();
    let b = w.create_entity().unwrap();
    assert_eq!(w.find(a), Some(0));
    assert_eq!(w.find(b), Some(1));
    assert_eq!(w.find(Entity { id: 2 }), None);
    w.actors.remove(0);
    assert_eq!(w.find(a), None);
    assert_eq!(w.find(b), Some(0));
}

#[test]
fn the_name_is_the_label() {
    let mut a = Actor::new(Entity { id: 4 });
    assert_eq!(a.label_copy(), None);
    a.name = Some(Name { name: "Orc".to_string() });
    assert_eq!(a.label_copy(), Some("Orc".to_string()));
}

#[test]
fn a_world_out_of_order_is_told_apart() {
    let sound = {
        let mut w = world();
        w.create_entity();
        w.create_entity();
        w
    };
    assert!(sound.is_well_formed());

    let mut twice = sound.clone();
    twice.actors[1].entity = Entity { id: 0 };
    assert!(!twice.is_well_formed());

    let mut ahead = sound.clone();
    ahead.actors[1].entity = Entity { id: 2 };
    assert!(!ahead.is_well_formed());

    let mut off_map = sound.clone();
    off_map.actors[0].position = Some(Position { x: 10, y: 3 });
    assert!(!off_map.is_well_formed());
    off_map.actors[0].position = Some(Position { x: 9, y: -1 });
    assert!(!off_map.is_well_formed());
    off_map.actors[0].position = Some(Position { x: 9, y: 9 });
    assert!(off_map.is_well_formed());

    let mut far_sighted = sound.clone();
    far_sighted.actors[0].viewshed = Some(Viewshed::new(23171));
    assert!(!far_sighted.is_well_formed());
    far_sighted.actors[0].viewshed = Some(Viewshed::new(-1));
    assert!(!far_sighted.is_well_formed());
    far_sighted.actors[0].viewshed = Some(Viewshed::new(23170));
    assert!(far_sighted.is_well_formed());

    let mut confused = sound.clone();
    confused.actors[0].monster =
        Some(Monster { last_known_player_pos: Some(Coord::new(3, 10)), last_pathfind: None });
    assert!(!confused.is_well_formed());

    let mut two_players = sound.clone();
    two_players.actors[0].player = Some(Player { number_of_moves: 0 });
    assert!(two_players.is_well_formed());
    two_players.actors[1].player = Some(Player { number_of_moves: 0 });
    assert!(!two_players.is_well_formed());

    let mut lost = sound.clone();
    lost.player_pos = Coord::new(0, 10);
    assert!(!lost.is_well_formed());

    let mut torn = sound.clone();
    torn.map.visible_tiles.push(false);
    assert!(!torn.is_well_formed());
}

#[test]
fn a_viewshed_knows_what_it_sees() {
    let v = Viewshed { visible_tiles: vec![Coord::new(1, 2), Coord::new(3, 4)], range: 8, dirty: false };
    assert!(v.sees(Coord::new(3, 4)));
    assert!(v.sees(Coord::new(1, 2)));
    assert!(!v.sees(Coord::new(2, 1)));
    assert!(!Viewshed::new(8).sees(Coord::new(0, 0)));
    assert!(Viewshed::new(8).dirty);
}

#[test]
fn the_debug_switch_starts_off() {
    assert_eq!(GodMode::default(), GodMode(false));
    assert!(rogue_core::GameLog::new().entries.is_empty());
    assert!(Monster::new().last_known_player_pos.is_none());
    assert!(Monster::new().last_pathfind.is_none());
    assert_eq!(Position { x: 3, y: 4 }.to_point(), Coord::new(3, 4));
}
