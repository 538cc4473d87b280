use roguelike::input::{command_for_key, handle_command, Command, Direction, Key};
use roguelike::object::{move_by, position_is_blocked, Color, Game, Object, PLAYER_INDEX};
use roguelike::rect::Rect;
use roguelike::tile::{Grid, Tile};
use roguelike::view::{make_fov_map, needs_recompute, shade_map, tile_color, visible_objects, FovCell};

fn white() -> Color {
    Color { r: 255, g: 255, b: 255 }
}

fn open_game(w: i32, h: i32) -> Game {
    let mut map = Grid::new(w, h);
    for x in 1..w - 1 {
        for y in 1..h - 1 {
            map.set_tile(x, y, Tile::empty());
        }
    }
    Game { map }
}

#[test]
fn tile_constructors() {
    let e = Tile::empty();
    assert!(!e.blocked && !e.block_sight && !e.explored);
    let w = Tile::wall();
    assert!(w.blocked && w.block_sight && !w.explored);
}

#[test]
fn new_grid_is_all_wall() {
    let g = Grid::new(3, 2);
    assert_eq!(g.tiles.len(), 3);
    for x in 0..3 {
        for y in 0..2 {
            assert_eq!(g.tile_at(x, y), Tile::wall());
        }
    }
}

#[test]
fn set_tile_changes_one_cell() {
    let mut g = Grid::new(3, 3);
    g.set_tile(1, 2, Tile::empty());
    assert_eq!(g.tile_at(1, 2), Tile::empty());
    assert_eq!(g.tile_at(2, 1), Tile::wall());
}

#[test]
fn rect_corners_and_center() {
    let r = Rect::new(2, 3, 5, 4);
    assert_eq!((r.x1, r.y1, r.x2, r.y2), (2, 3, 7, 7));
    assert_eq!(r.center(), (4, 5));
    assert_eq!(Rect::new(-5, -3, 2, 2).center(), (-4, -2));
    assert_eq!(Rect::new(-3, 0, 2, 1).center(), (-2, 0));
}

#[test]
fn touching_rects_intersect() {
    let a = Rect::new(0, 0, 4, 4);
    assert!(a.intersects_with_rect(&Rect::new(4, 0, 3, 3)));
    assert!(a.intersects_with_rect(&Rect::new(2, 2, 1, 1)));
    assert!(!a.intersects_with_rect(&Rect::new(5, 0, 3, 3)));
    assert!(!a.intersects_with_rect(&Rect::new(0, 5, 3, 3)));
}

#[test]
fn object_basics() {
    let mut o = Object::new(1, 2, 'o', "orc", Color { r: 1, g: 2, b: 3 }, true);
    assert_eq!(o.position(), (1, 2));
    assert_eq!(o.name, "orc");
    assert!(o.blocks && !o.alive);
    o.move_to(7, 8);
    assert_eq!(o.position(), (7, 8));
    assert_eq!(o.char, 'o');
}

#[test]
fn blocking_actor_stops_move() {
    let game = open_game(10, 10);
    let mut objects = vec![
        Object::new(5, 5, 'A', "a", white(), true),
        Object::new(4, 5, 'B', "b", white(), true),
    ];
    assert!(!move_by(1, 1, 0, &game, &mut objects));
    assert_eq!(objects[1].position(), (4, 5));
    assert_eq!(objects[0].position(), (5, 5));
}

#[test]
fn non_blocking_actor_does_not_stop_move() {
    let game = open_game(10, 10);
    let mut objects = vec![
        Object::new(4, 5, 'B', "b", white(), true),
        Object::new(5, 5, 'c', "corpse", white(), false),
    ];
    assert!(move_by(0, 1, 0, &game, &mut objects));
    assert_eq!(objects[0].position(), (5, 5));
}

#[test]
fn walls_and_edges_stop_moves() {
    let game = open_game(10, 10);
    let mut objects = vec![Object::new(1, 1, '@', "me", white(), true)];
    assert!(!move_by(0, -1, 0, &game, &mut objects));
    assert!(!move_by(0, -1, -1, &game, &mut objects));
    assert_eq!(objects[0].position(), (1, 1));
    assert!(move_by(0, 1, 1, &game, &mut objects));
    assert_eq!(objects[0].position(), (2, 2));
    let mut edge = vec![Object::new(0, 0, '@', "me", white(), true)];
    let mut g = open_game(3, 3);
    g.map.set_tile(0, 0, Tile::empty());
    assert!(!move_by(0, -1, 0, &g, &mut edge));
    assert!(position_is_blocked(-1, 0, 0, &g, &edge));
    assert!(position_is_blocked(1, 1, 5, &g, &vec![Object::new(1, 1, 'x', "x", white(), true)]));
    assert!(!position_is_blocked(1, 1, 0, &g, &vec![Object::new(1, 1, 'x', "x", white(), true)]));
}

#[test]
fn random_moves_keep_invariants() {
    let game = open_game(8, 8);
    let mut objects = vec![
        Object::new(1, 1, '@', "me", white(), true),
        Object::new(3, 3, 'o', "orc", white(), true),
        Object::new(5, 2, 'T', "troll", white(), true),
        Object::new(2, 5, 'c', "corpse", white(), false),
    ];
    let mut seed: u32 = 12345;
    for _ in 0..2000 {
        seed = seed.wrapping_mul(1103515245).wrapping_add(12345);
        let id = (seed >> 16) as usize % objects.len();
        let dx = ((seed >> 8) % 3) as i32 - 1;
        let dy = ((seed >> 4) % 3) as i32 - 1;
        move_by(id, dx, dy, &game, &mut objects);
        assert_eq!(objects.len(), 4);
        for (i, a) in objects.iter().enumerate() {
            assert!(!game.map.tile_at(a.x, a.y).blocked);
            for b in &objects[i + 1..] {
                if a.blocks && b.blocks {
                    assert_ne!(a.position(), b.position());
                }
            }
        }
    }
}

#[test]
fn keys_map_to_commands() {
    assert_eq!(command_for_key(Key::Up), Command::Move(Direction::North));
    assert_eq!(command_for_key(Key::NumPad8), Command::Move(Direction::North));
    assert_eq!(command_for_key(Key::NumPad3), Command::Move(Direction::SouthEast));
    assert_eq!(command_for_key(Key::Left), Command::Move(Direction::West));
    assert_eq!(command_for_key(Key::Escape), Command::Exit);
    assert_eq!(command_for_key(Key::AltEnter), Command::ToggleFullscreen);
    assert_eq!(command_for_key(Key::Other), Command::Nothing);
    assert_eq!(Direction::NorthEast.delta(), (1, -1));
    assert_eq!(Direction::SouthWest.delta(), (-1, 1));
}

#[test]
fn commands_move_the_player() {
    let game = open_game(6, 6);
    let mut objects = vec![Object::new(2, 2, '@', "me", white(), true)];
    assert!(!handle_command(Command::Move(Direction::East), &game, &mut objects));
    assert_eq!(objects[PLAYER_INDEX].position(), (3, 2));
    assert!(!handle_command(Command::Nothing, &game, &mut objects));
    assert!(!handle_command(Command::ToggleFullscreen, &game, &mut objects));
    assert_eq!(objects[PLAYER_INDEX].position(), (3, 2));
    assert!(handle_command(Command::Exit, &game, &mut objects));
}

#[test]
fn fov_map_mirrors_tiles() {
    let game = open_game(4, 3);
    let cells = make_fov_map(&game.map);
    assert_eq!(cells.len(), 4);
    assert_eq!(cells[1][1], FovCell { transparent: true, walkable: true });
    assert_eq!(cells[0][1], FovCell { transparent: false, walkable: false });
}

#[test]
fn colours_by_visibility_and_wall() {
    assert_eq!(tile_color(false, true), Color { r: 0, g: 0, b: 100 });
    assert_eq!(tile_color(false, false), Color { r: 50, g: 50, b: 150 });
    assert_eq!(tile_color(true, true), Color { r: 130, g: 110, b: 50 });
    assert_eq!(tile_color(true, false), Color { r: 200, g: 180, b: 50 });
}

#[test]
fn explored_is_a_latch() {
    let mut game = open_game(3, 3);
    let mut visible = vec![vec![false; 3]; 3];
    visible[1][1] = true;
    visible[0][1] = true;
    let paint = shade_map(&mut game.map, &visible);
    assert_eq!(paint[1][1], Some(Color { r: 200, g: 180, b: 50 }));
    assert_eq!(paint[0][1], Some(Color { r: 130, g: 110, b: 50 }));
    assert_eq!(paint[2][2], None);
    assert!(game.map.tile_at(1, 1).explored);
    let nothing = vec![vec![false; 3]; 3];
    let paint = shade_map(&mut game.map, &nothing);
    assert!(game.map.tile_at(1, 1).explored);
    assert!(game.map.tile_at(0, 1).explored);
    assert!(!game.map.tile_at(2, 2).explored);
    assert_eq!(paint[1][1], Some(Color { r: 50, g: 50, b: 150 }));
    assert_eq!(paint[0][1], Some(Color { r: 0, g: 0, b: 100 }));
    assert_eq!(paint[2][2], None);
    assert!(game.map.tile_at(1, 1).blocked == false);
}

#[test]
fn only_actors_in_view_are_shown() {
    let game = open_game(4, 4);
    let mut visible = vec![vec![false; 4]; 4];
    visible[1][1] = true;
    visible[2][2] = true;
    let objects = vec![
        Object::new(1, 1, '@', "me", white(), true),
        Object::new(1, 2, 'o', "orc", white(), true),
        Object::new(2, 2, 'T', "troll", white(), true),
        Object::new(9, 9, 'x', "far", white(), true),
    ];
    assert_eq!(visible_objects(&objects, &game.map, &visible), vec![0, 2]);
}

#[test]
fn recompute_only_after_a_move() {

    assert!(needs_recompute(None, (3, 4)));
    assert!(!needs_recompute(Some((3, 4)), (3, 4)));
    assert!(needs_recompute(Some((3, 4)), (4, 4)));
    assert!(needs_recompute(Some((3, 4)), (3, 5)));
}
