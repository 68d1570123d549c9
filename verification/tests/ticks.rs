use rand::rngs::StdRng;
use rand::SeedableRng;
use rogue_core::engine::{game_tick, handle_keys, FovData, Game, Intent, PlayerAction};
use rogue_core::log::Messages;
use rogue_core::map::{create_room, Rect, TileGrid};
use rogue_core::object::{
    move_by, move_towards, Ai, Color, DeathCallback, Fighter, Object,
};

fn open_arena() -> TileGrid {
    let mut map = TileGrid::all_walls(12, 12);
    create_room(Rect::new(0, 0, 11, 11), &mut map);
    map
}

fn player_at(x: i32, y: i32) -> Object {
    let mut p = Object::new(x, y, '@', "player", Color::yellow(), true);
    p.alive = true;
    p.fighter = Some(Fighter {
        max_hp: 30,
        hp: 30,
        defense: 2,
        power: 5,
        magic: 0,
        magic_defense: 0,
        on_death: DeathCallback::Player,
    });
    p
}

fn monster_at(x: i32, y: i32) -> Object {
    let mut m = Object::new(x, y, 's', "Baby Spider", Color::light_red(), true);
    m.alive = true;
    m.fighter = Some(Fighter {
        max_hp: 10,
        hp: 10,
        defense: 0,
        power: 3,
        magic: 0,
        magic_defense: 0,
        on_death: DeathCallback::Monster,
    });
    m.ai = Some(Ai::Basic);
    m
}

fn all_visible(map: &TileGrid) -> FovData {
    let mut fov = FovData::new_hidden(map.get_width(), map.get_height());
    for x in 0..map.get_width() {
        for y in 0..map.get_height() {
            fov.set(x, y, true);
        }
    }
    fov
}

#[test]
fn moving_into_a_wall_is_a_no_op() {
    let map = open_arena();
    let mut objects = vec![player_at(1, 1)];
    // (0, 1) is on the border and walled
    move_by(0, -1, 0, &map, &mut objects);
    assert_eq!(objects[0].pos(), (1, 1));
}

#[test]
fn moving_into_open_floor_updates_the_position() {
    let map = open_arena();
    let mut objects = vec![player_at(5, 5)];
    move_by(0, 1, -1, &map, &mut objects);
    assert_eq!(objects[0].pos(), (6, 4));
}

#[test]
fn moving_onto_a_blocking_entity_is_a_no_op() {
    let map = open_arena();
    let mut objects = vec![player_at(5, 5), monster_at(6, 5)];
    move_by(0, 1, 0, &map, &mut objects);
    assert_eq!(objects[0].pos(), (5, 5));
}

#[test]
fn move_towards_takes_one_rounded_unit_step() {
    let map = open_arena();
    let mut objects = vec![player_at(5, 5)];
    // target 4 to the right, 3 up: the rounded unit vector is (1, -1).
    move_towards(0, 9, 2, &map, &mut objects);
    assert_eq!(objects[0].pos(), (6, 4));
    // target straight down: step (0, 1).
    move_towards(0, 6, 9, &map, &mut objects);
    assert_eq!(objects[0].pos(), (6, 5));
}

#[test]
fn hidden_monster_takes_no_action() {
    let map = open_arena();
    let fov = FovData::new_hidden(map.get_width(), map.get_height());
    let mut objects = vec![player_at(2, 2), monster_at(3, 2)];
    let mut rng = StdRng::seed_from_u64(1);
    let mut log = Messages::new();
    let action = game_tick(Intent::Move(0, -1), &fov, &map, &mut objects, &mut rng, &mut log);
    assert_eq!(action, PlayerAction::TookTurn);
    // the player moved, but the adjacent monster (out of view) did nothing
    assert_eq!(objects[0].pos(), (2, 1));
    assert_eq!(objects[1].pos(), (3, 2));
    assert_eq!(objects[0].fighter.unwrap().hp, 30);
    assert_eq!(log.len(), 0);
}

#[test]
fn visible_far_monster_seeks_the_player() {
    let map = open_arena();
    let fov = all_visible(&map);
    let mut objects = vec![player_at(2, 2), monster_at(8, 2)];
    let mut rng = StdRng::seed_from_u64(1);
    let mut log = Messages::new();
    game_tick(Intent::Move(0, 1), &fov, &map, &mut objects, &mut rng, &mut log);
    // the monster stepped one cell toward the player
    assert_eq!(objects[1].pos(), (7, 2));
}

#[test]
fn adjacent_visible_monster_attacks_the_player() {
    let map = open_arena();
    let fov = all_visible(&map);
    let mut objects = vec![player_at(2, 2), monster_at(3, 2)];
    let mut rng = StdRng::seed_from_u64(1);
    let mut log = Messages::new();
    game_tick(Intent::Move(0, -1), &fov, &map, &mut objects, &mut rng, &mut log);
    // the player moved to (2, 1); the monster at (3, 2) is at squared
    // distance 2 < 4 and the player is alive: it attacks, damage 3 - 2/4 = 3.
    assert_eq!(objects[0].fighter.unwrap().hp, 27);
    assert_eq!(log.len(), 1);
    assert_eq!(log.get(0).text, "Baby Spider attacks player.");
}

#[test]
fn player_attack_resolves_against_occupied_destination() {
    let map = open_arena();
    let fov = all_visible(&map);
    let mut objects = vec![player_at(2, 2), monster_at(3, 2)];
    let mut rng = StdRng::seed_from_u64(1);
    let mut log = Messages::new();
    // moving right walks into the monster: resolved as an attack, damage 5.
    game_tick(Intent::Move(1, 0), &fov, &map, &mut objects, &mut rng, &mut log);
    assert_eq!(objects[0].pos(), (2, 2));
    assert_eq!(objects[1].fighter.unwrap().hp, 5);
    assert_eq!(log.get(0).text, "player attacks Baby Spider.");
}

#[test]
fn quit_intent_exits_before_monsters_act() {
    let map = open_arena();
    let fov = all_visible(&map);
    let mut objects = vec![player_at(2, 2), monster_at(3, 2)];
    let mut rng = StdRng::seed_from_u64(1);
    let mut log = Messages::new();
    let action = game_tick(Intent::Quit, &fov, &map, &mut objects, &mut rng, &mut log);
    assert_eq!(action, PlayerAction::Exit);
    assert_eq!(objects[0].fighter.unwrap().hp, 30);
    assert_eq!(objects[1].pos(), (3, 2));
    assert_eq!(log.len(), 0);
}

#[test]
fn dead_player_takes_no_turn() {
    let map = open_arena();
    let mut objects = vec![player_at(2, 2)];
    objects[0].alive = false;
    objects[0].fighter = Some(Fighter {
        max_hp: 30,
        hp: 0,
        defense: 2,
        power: 5,
        magic: 0,
        magic_defense: 0,
        on_death: DeathCallback::Player,
    });
    let mut log = Messages::new();
    let action = handle_keys(Intent::Move(1, 0), &map, &mut objects, &mut log);
    assert_eq!(action, PlayerAction::DidntTakeTurn);
    assert_eq!(objects[0].pos(), (2, 2));
}

#[test]
fn toggle_and_wait_take_no_turn() {
    let map = open_arena();
    let mut objects = vec![player_at(2, 2)];
    let mut log = Messages::new();
    assert_eq!(
        handle_keys(Intent::ToggleDisplay, &map, &mut objects, &mut log),
        PlayerAction::DidntTakeTurn
    );
    assert_eq!(handle_keys(Intent::Wait, &map, &mut objects, &mut log), PlayerAction::DidntTakeTurn);
    assert_eq!(objects[0].pos(), (2, 2));
}

#[test]
fn wandering_monster_ignores_a_dead_player() {
    let map = open_arena();
    let fov = all_visible(&map);
    let mut objects = vec![player_at(2, 2), monster_at(3, 2)];
    objects[0].alive = false;
    objects[0].fighter = Some(Fighter {
        max_hp: 30,
        hp: 0,
        defense: 2,
        power: 5,
        magic: 0,
        magic_defense: 0,
        on_death: DeathCallback::Player,
    });
    let mut rng = StdRng::seed_from_u64(1);
    let mut log = Messages::new();
    rogue_core::engine::monsters_turn(&fov, &map, &mut objects, &mut rng, &mut log);
    // no attack happened; the monster wandered at most one step up or left
    assert_eq!(objects[0].fighter.unwrap().hp, 0);
    assert_eq!(log.len(), 0);
    let (mx, my) = objects[1].pos();
    assert!((2..=3).contains(&mx) && (1..=2).contains(&my));
}

#[test]
fn find_object_returns_the_first_match() {
    let objects = vec![player_at(2, 2), monster_at(3, 2), monster_at(3, 2)];
    assert_eq!(Game::find_object(3, 2, &objects), Some(1));
    assert_eq!(Game::find_object(2, 2, &objects), Some(0));
    assert_eq!(Game::find_object(9, 9, &objects), None);
}

#[test]
fn messages_append_in_order() {
    let mut log = Messages::new();
    log.add("first".to_string(), Color::white());
    log.add("second".to_string(), Color::red());
    assert_eq!(log.len(), 2);
    assert_eq!(log.get(0).text, "first");
    assert_eq!(log.get(1).text, "second");
    assert_eq!(log.window_start(5), 0);
    assert_eq!(log.window_start(1), 1);
}

#[test]
fn fixed_seed_and_inputs_reproduce_a_whole_run() {
    let intents = [
        Intent::Move(1, 0),
        Intent::Move(0, 1),
        Intent::Move(1, 1),
        Intent::Wait,
        Intent::Move(-1, 0),
        Intent::Move(0, -1),
        Intent::Move(1, 0),
        Intent::Move(1, 0),
    ];
    let run = |seed: u64| {
        let map = open_arena();
        let fov = all_visible(&map);
        let mut objects = vec![player_at(2, 2), monster_at(8, 8)];
        let mut rng = StdRng::seed_from_u64(seed);
        let mut log = Messages::new();
        for &intent in &intents {
            game_tick(intent, &fov, &map, &mut objects, &mut rng, &mut log);
        }
        let mut texts: Vec<String> = Vec::new();
        for i in 0..log.len() {
            texts.push(log.get(i).text.clone());
        }
        let positions: Vec<(i32, i32)> = objects.iter().map(|o| o.pos()).collect();
        let hps: Vec<i32> = objects.iter().map(|o| o.fighter.map_or(0, |f| f.hp)).collect();
        (positions, hps, texts)
    };
    assert_eq!(run(99), run(99));
}
