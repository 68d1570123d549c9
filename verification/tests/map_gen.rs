use rand::rngs::StdRng;
use rand::SeedableRng;
use rogue_core::map::{build_dungeon, Rect, Tile, TileGrid};
use rogue_core::object::{is_blocked, Color, Object};

fn player() -> Object {
    let mut p = Object::new(25, 23, '@', "player", Color::yellow(), true);
    p.alive = true;
    p
}

#[test]
fn tile_constructors() {
    let e = Tile::empty();
    assert!(!e.blocked && !e.block_sight && !e.explored);
    let w = Tile::wall();
    assert!(w.blocked && w.block_sight && !w.explored);
}

#[test]
fn rect_center_rounds_down() {
    let r = Rect::new(2, 3, 7, 7);
    // x spans 2..=9, y spans 3..=10: centre is ((2+9)/2, (3+10)/2).
    assert_eq!(r.center(), (5, 6));
}

#[test]
fn rect_intersection_is_inclusive_on_the_bound() {
    let a = Rect::new(0, 0, 4, 4);
    let b = Rect::new(4, 4, 4, 4);
    // the bounding edges touch at (4, 4): that counts as an intersection.
    assert!(a.intersects_with(&b));
    assert!(b.intersects_with(&a));
    let c = Rect::new(5, 5, 4, 4);
    assert!(!a.intersects_with(&c));
    assert!(!c.intersects_with(&a));
}

#[test]
fn accepted_rooms_do_not_intersect() {
    let mut objects = vec![player()];
    let mut rng = StdRng::seed_from_u64(7);
    let (_, rooms) = build_dungeon(80, 43, &mut objects, &mut rng);
    assert!(rooms.len() >= 1);
    assert!(rooms.len() <= 30);
    for i in 0..rooms.len() {
        for j in 0..rooms.len() {
            if i != j {
                assert!(!rooms[i].intersects_with(&rooms[j]));
            }
        }
    }
}

#[test]
fn player_spawns_at_first_room_center() {
    let mut objects = vec![player()];
    let mut rng = StdRng::seed_from_u64(11);
    let (map, rooms) = build_dungeon(80, 43, &mut objects, &mut rng);
    let c = rooms[0].center();
    assert_eq!(objects[0].pos(), c);
    assert!(!map.tile_at(c.0, c.1).blocked);
}

#[test]
fn monsters_spawn_alive_on_open_cells_without_stacking() {
    let mut objects = vec![player()];
    let mut rng = StdRng::seed_from_u64(3);
    let (map, _) = build_dungeon(80, 43, &mut objects, &mut rng);
    for i in 1..objects.len() {
        let m = &objects[i];
        assert!(m.alive && m.blocks);
        assert!(m.fighter.is_none() && m.ai.is_none());
        assert!(!map.tile_at(m.x, m.y).blocked);
        assert!(m.name == "Baby Spider" || m.name == "Zombie");
        for j in 0..i {
            assert!(!(objects[j].blocks && objects[j].pos() == m.pos()));
        }
    }
}

#[test]
fn dungeon_border_stays_walled() {
    let mut objects = vec![player()];
    let mut rng = StdRng::seed_from_u64(5);
    let (map, _) = build_dungeon(80, 43, &mut objects, &mut rng);
    for x in 0..80 {
        assert!(map.tile_at(x, 0).blocked);
        assert!(map.tile_at(x, 42).blocked);
    }
    for y in 0..43 {
        assert!(map.tile_at(0, y).blocked);
        assert!(map.tile_at(79, y).blocked);
    }
}

#[test]
fn fixed_seed_reproduces_the_dungeon_bit_for_bit() {
    let mut objects1 = vec![player()];
    let mut rng1 = StdRng::seed_from_u64(1234);
    let (map1, rooms1) = build_dungeon(80, 43, &mut objects1, &mut rng1);

    let mut objects2 = vec![player()];
    let mut rng2 = StdRng::seed_from_u64(1234);
    let (map2, rooms2) = build_dungeon(80, 43, &mut objects2, &mut rng2);

    assert_eq!(rooms1, rooms2);
    for x in 0..80 {
        for y in 0..43 {
            assert_eq!(map1.tile_at(x, y), map2.tile_at(x, y));
        }
    }
    assert_eq!(objects1.len(), objects2.len());
    for i in 0..objects1.len() {
        assert_eq!(objects1[i].pos(), objects2[i].pos());
        assert_eq!(objects1[i].name, objects2[i].name);
        assert_eq!(objects1[i].glyph, objects2[i].glyph);
        assert_eq!(objects1[i].blocks, objects2[i].blocks);
        assert_eq!(objects1[i].alive, objects2[i].alive);
    }
}

#[test]
fn different_seeds_are_allowed_to_differ() {
    // not a law, just a sanity check that the generator consumes its draws:
    // two seeds out of a handful should give different dungeons.
    let mut any_difference = false;
    let mut base_objects = vec![player()];
    let mut base_rng = StdRng::seed_from_u64(0);
    let (_, base_rooms) = build_dungeon(80, 43, &mut base_objects, &mut base_rng);
    for seed in 1..6u64 {
        let mut objects = vec![player()];
        let mut rng = StdRng::seed_from_u64(seed);
        let (_, rooms) = build_dungeon(80, 43, &mut objects, &mut rng);
        if rooms != base_rooms {
            any_difference = true;
        }
    }
    assert!(any_difference);
}

#[test]
fn is_blocked_sees_walls_and_blocking_entities() {
    let map = TileGrid::all_walls(10, 10);
    let objects = vec![player()];
    assert!(is_blocked(3, 3, &map, &objects));
    let mut map = map;
    rogue_core::map::create_room(Rect::new(0, 0, 9, 9), &mut map);
    assert!(!is_blocked(3, 3, &map, &objects));
    let mut o = Object::new(3, 3, 's', "Baby Spider", Color::light_red(), true);
    o.alive = true;
    let objects = vec![player(), o];
    assert!(is_blocked(3, 3, &map, &objects));
    // a non-blocking entity (a corpse) does not occupy its cell
    let mut corpse = Object::new(4, 4, '%', "Corpse of Zombie", Color::dark_red(), false);
    corpse.alive = false;
    let objects = vec![player(), corpse];
    assert!(!is_blocked(4, 4, &map, &objects));
}

#[test]
fn tunnels_carve_both_endpoints_inclusive() {
    let mut map = TileGrid::all_walls(12, 12);
    rogue_core::map::create_h_tunnel(8, 3, 5, &mut map);
    for x in 3..=8 {
        assert!(!map.tile_at(x, 5).blocked);
    }
    assert!(map.tile_at(2, 5).blocked);
    assert!(map.tile_at(9, 5).blocked);
    rogue_core::map::create_v_tunnel(2, 7, 3, &mut map);
    for y in 2..=7 {
        assert!(!map.tile_at(3, y).blocked);
    }
}

#[test]
fn recarving_a_tunnel_is_idempotent() {
    let mut once = TileGrid::all_walls(12, 12);
    rogue_core::map::create_h_tunnel(2, 9, 4, &mut once);
    let mut twice = TileGrid::all_walls(12, 12);
    rogue_core::map::create_h_tunnel(2, 9, 4, &mut twice);
    rogue_core::map::create_h_tunnel(2, 9, 4, &mut twice);
    for x in 0..12 {
        for y in 0..12 {
            assert_eq!(once.tile_at(x, y), twice.tile_at(x, y));
        }
    }
}

#[test]
fn squared_distance_counts_whole_cells() {
    let a = Object::new(2, 3, '@', "player", Color::yellow(), true);
    let b = Object::new(5, 7, 's', "Baby Spider", Color::light_red(), true);
    assert_eq!(a.distance2_to(&b), 25);
    assert_eq!(b.distance2_to(&a), 25);
    assert_eq!(a.distance2_to(&a), 0);
}
