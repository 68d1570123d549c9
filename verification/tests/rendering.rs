use rogue_core::engine::FovData;
use rogue_core::map::{create_room, Rect, TileGrid};
use rogue_core::object::{Color, Object};
use rogue_core::render::{draw_order, render_map, CellDraw};

fn arena() -> TileGrid {
    let mut map = TileGrid::all_walls(6, 6);
    create_room(Rect::new(0, 0, 5, 5), &mut map);
    map
}

fn fov_with(map: &TileGrid, cells: &[(usize, usize)]) -> FovData {
    let mut fov = FovData::new_hidden(map.get_width(), map.get_height());
    for &(x, y) in cells {
        fov.set(x, y, true);
    }
    fov
}

#[test]
fn visible_cells_become_explored_for_good() {
    let mut map = arena();
    assert!(!map.tile_at(2, 2).explored);
    let fov = fov_with(&map, &[(2, 2)]);
    render_map(&mut map, &fov);
    assert!(map.tile_at(2, 2).explored);
    assert!(!map.tile_at(3, 3).explored);
    // a later pass with nothing visible keeps the flag
    let dark = fov_with(&map, &[]);
    render_map(&mut map, &dark);
    assert!(map.tile_at(2, 2).explored);
}

#[test]
fn never_explored_cells_are_not_drawn() {
    let mut map = arena();
    let fov = fov_with(&map, &[(2, 2)]);
    let draws = render_map(&mut map, &fov);
    assert_eq!(draws.len(), 1);
    assert_eq!(draws[0].x, 2);
    assert_eq!(draws[0].y, 2);
    assert_eq!(draws[0].glyph, '.');
}

#[test]
fn the_four_fixed_colors() {
    let mut map = arena();
    // visible ground and visible wall
    let fov = fov_with(&map, &[(2, 2), (0, 0)]);
    let draws = render_map(&mut map, &fov);
    let lit_wall: Vec<&CellDraw> = draws.iter().filter(|d| (d.x, d.y) == (0, 0)).collect();
    let lit_ground: Vec<&CellDraw> = draws.iter().filter(|d| (d.x, d.y) == (2, 2)).collect();
    assert_eq!(lit_wall[0].color, Color { r: 130, g: 110, b: 50 });
    assert_eq!(lit_wall[0].glyph, '#');
    assert_eq!(lit_ground[0].color, Color { r: 200, g: 180, b: 50 });
    // second pass with nothing visible: both cells stay drawn, now dark
    let dark = fov_with(&map, &[]);
    let draws = render_map(&mut map, &dark);
    let dark_wall: Vec<&CellDraw> = draws.iter().filter(|d| (d.x, d.y) == (0, 0)).collect();
    let dark_ground: Vec<&CellDraw> = draws.iter().filter(|d| (d.x, d.y) == (2, 2)).collect();
    assert_eq!(dark_wall[0].color, Color { r: 0, g: 0, b: 100 });
    assert_eq!(dark_ground[0].color, Color { r: 50, g: 50, b: 150 });
}

#[test]
fn rerender_without_fov_recompute_is_identical() {
    let mut map = arena();
    let fov = fov_with(&map, &[(1, 1), (2, 2), (0, 3)]);
    let first = render_map(&mut map, &fov);
    let second = render_map(&mut map, &fov);
    assert_eq!(first, second);
}

#[test]
fn draw_order_puts_corpses_below_blockers() {
    let map = arena();
    let fov = fov_with(&map, &[(1, 1), (2, 2), (3, 3)]);
    let blocker1 = Object::new(1, 1, '@', "player", Color::yellow(), true);
    let corpse = Object::new(2, 2, '%', "Corpse of Zombie", Color::dark_red(), false);
    let blocker2 = Object::new(3, 3, 's', "Baby Spider", Color::light_red(), true);
    let hidden = Object::new(4, 4, 'Z', "Zombie", Color::light_green(), true);
    let objects = vec![blocker1, corpse, blocker2, hidden];
    let order = draw_order(&objects, &fov);
    // the hidden entity is skipped; the corpse comes first, blockers after,
    // each group in ascending index order
    assert_eq!(order, vec![1, 0, 2]);
}
