use roguelike::dungeon::{
    check_config, connect_cells, create_h_tunnel, create_room, create_v_tunnel, generate, make_map,
    add_monsters, monster_at, place_objects_in_room, try_add_room, Bend, ConfigError, MapConfig,
};
use roguelike::object::{Color, Object};
use roguelike::rect::Rect;
use roguelike::tile::{Grid, Tile};

fn player() -> Object {
    Object::new(23, 17, '@', "me", Color { r: 255, g: 255, b: 255 }, true)
}

fn reachable(map: &Grid, from: (i32, i32)) -> Vec<Vec<bool>> {
    let mut seen = vec![vec![false; map.height as usize]; map.width as usize];
    let mut stack = vec![from];
    seen[from.0 as usize][from.1 as usize] = true;
    while let Some((x, y)) = stack.pop() {
        for (dx, dy) in [(1, 0), (-1, 0), (0, 1), (0, -1)] {
            let (nx, ny) = (x + dx, y + dy);
            if nx >= 0 && ny >= 0 && nx < map.width && ny < map.height {
                if !map.tile_at(nx, ny).blocked && !seen[nx as usize][ny as usize] {
                    seen[nx as usize][ny as usize] = true;
                    stack.push((nx, ny));
                }
            }
        }
    }
    seen
}

#[test]
fn room_interior_becomes_floor() {
    let mut map = Grid::new(10, 10);
    create_room(Rect::new(1, 1, 4, 3), &mut map);
    for x in 0..10 {
        for y in 0..10 {
            let inside = x > 1 && x < 5 && y > 1 && y < 4;
            assert_eq!(map.tile_at(x, y).blocked, !inside, "cell {} {}", x, y);
        }
    }
}

#[test]
fn tunnels_open_both_ends() {
    let mut map = Grid::new(10, 10);
    create_h_tunnel(7, 2, 3, &mut map);
    for x in 0..10 {
        assert_eq!(map.tile_at(x, 3).blocked, !(2..=7).contains(&x));
    }
    create_v_tunnel(1, 4, 8, &mut map);
    for y in 0..10 {
        assert_eq!(map.tile_at(8, y).blocked, !(1..=4).contains(&y));
    }
    assert!(map.tile_at(0, 0).blocked);
}

#[test]
fn bends_place_the_corner_differently() {
    let mut a = Grid::new(10, 10);
    connect_cells((1, 1), (5, 6), Bend::HorizontalFirst, &mut a);
    assert!(!a.tile_at(5, 1).blocked);
    assert!(a.tile_at(1, 6).blocked);
    let mut b = Grid::new(10, 10);
    connect_cells((1, 1), (5, 6), Bend::VerticalFirst, &mut b);
    assert!(!b.tile_at(1, 6).blocked);
    assert!(b.tile_at(5, 1).blocked);
    for map in [&a, &b] {
        assert!(reachable(map, (1, 1))[5][6]);
    }
}

#[test]
fn overlapping_room_is_rejected() {
    let mut map = Grid::new(30, 30);
    let mut rooms = Vec::new();
    let mut objects = vec![player()];
    assert!(try_add_room(Rect::new(2, 2, 6, 6), Bend::HorizontalFirst, &mut map, &mut rooms, &mut objects));
    assert_eq!(objects[0].position(), (5, 5));
    // shares the wall at x == 8
    assert!(!try_add_room(Rect::new(8, 2, 6, 6), Bend::HorizontalFirst, &mut map, &mut rooms, &mut objects));
    assert_eq!(rooms.len(), 1);
    assert!(try_add_room(Rect::new(15, 15, 6, 6), Bend::VerticalFirst, &mut map, &mut rooms, &mut objects));
    assert_eq!(rooms.len(), 2);
    assert_eq!(objects[0].position(), (5, 5));
    assert!(reachable(&map, (5, 5))[18][18]);
}

#[test]
fn monsters_stand_inside_the_room() {
    let room = Rect::new(3, 4, 5, 6);
    for _ in 0..50 {
        let mut objects = vec![player()];
        place_objects_in_room(room, 3, &mut objects);
        assert!(objects.len() >= 1 && objects.len() <= 4);
        assert_eq!(objects[0].position(), (23, 17));
        for m in &objects[1..] {
            assert!(m.x > 3 && m.x < 8 && m.y > 4 && m.y < 10);
            assert!(m.blocks);
            assert!((m.char == 'o' && m.name == "orc") || (m.char == 'T' && m.name == "troll"));
        }
    }
}

#[test]
fn no_monsters_when_bound_is_zero() {
    let mut objects = vec![player()];
    place_objects_in_room(Rect::new(0, 0, 4, 4), 0, &mut objects);
    assert_eq!(objects.len(), 1);
}

#[test]
fn generated_rooms_never_intersect() {
    for _ in 0..20 {
        let mut objects = vec![player()];
        let d = generate(&MapConfig::standard(), &mut objects).unwrap();
        assert!(!d.rooms.is_empty() && d.rooms.len() <= 30);
        for i in 0..d.rooms.len() {
            for j in 0..d.rooms.len() {
                if i != j {
                    assert!(!d.rooms[i].intersects_with_rect(&d.rooms[j]));
                }
            }
            let r = d.rooms[i];
            assert!(r.x2 - r.x1 >= 6 && r.x2 - r.x1 <= 10);
            assert!(r.y2 - r.y1 >= 6 && r.y2 - r.y1 <= 10);
            assert!(r.x1 >= 0 && r.y1 >= 0 && r.x2 < 80 && r.y2 < 45);
        }
    }
}

#[test]
fn spawn_point_is_open() {
    for _ in 0..20 {
        let mut objects = vec![player()];
        let d = generate(&MapConfig::standard(), &mut objects).unwrap();
        let (cx, cy) = d.rooms[0].center();
        assert_eq!(objects[0].position(), (cx, cy));
        assert!(!d.map.tile_at(cx, cy).blocked);
    }
}

#[test]
fn every_room_is_reachable_from_spawn() {
    for _ in 0..20 {
        let mut objects = vec![player()];
        let d = generate(&MapConfig::standard(), &mut objects).unwrap();
        let seen = reachable(&d.map, d.rooms[0].center());
        for r in &d.rooms {
            let (x, y) = r.center();
            assert!(seen[x as usize][y as usize]);
        }
        for m in &objects[1..] {
            assert!(d.rooms.iter().any(|r| m.x > r.x1 && m.x < r.x2 && m.y > r.y1 && m.y < r.y2));
        }
    }
}

#[test]
fn make_map_puts_player_on_floor() {
    let mut objects = vec![player()];
    let d = make_map(&mut objects);
    let map = &d.map;
    assert_eq!((map.width(), map.height()), (80, 45));
    assert!(!d.rooms.is_empty() && d.rooms.len() <= 30);
    assert_eq!(objects[0].position(), d.rooms[0].center());
    assert!(objects.len() - 1 <= 3 * d.rooms.len());
    assert_eq!(objects[0].name, "me");
    let (x, y) = objects[0].position();
    assert!(!map.tile_at(x, y).blocked);
}

#[test]
fn zero_rooms_leaves_all_walls() {
    let config = MapConfig { max_rooms: 0, ..MapConfig::standard() };
    let mut objects = vec![player()];
    let d = generate(&config, &mut objects).unwrap();
    assert!(d.rooms.is_empty());
    assert_eq!(objects[0].position(), (23, 17));
    assert_eq!(objects.len(), 1);
    assert!(d.map.tiles.iter().all(|c| c.iter().all(|t| *t == Tile::wall())));
}

#[test]
fn bad_configurations_are_rejected() {
    let base = MapConfig::standard();
    let cases = [
        (MapConfig { max_rooms: -1, ..base }, ConfigError::BadCount),
        (MapConfig { max_monsters_per_room: -2, ..base }, ConfigError::BadCount),
        (MapConfig { room_min_size: 1, ..base }, ConfigError::RoomTooSmall),
        (MapConfig { room_min_size: 11, ..base }, ConfigError::RoomSizesReversed),
        (MapConfig { room_max_size: 45, ..base }, ConfigError::RoomTooLarge),
        (MapConfig { width: 10, ..base }, ConfigError::RoomTooLarge),
    ];
    for (config, err) in cases {
        let mut objects = vec![player()];
        assert_eq!(check_config(&config), Err(err));
        assert_eq!(generate(&config, &mut objects).err(), Some(err));
        assert_eq!(objects.len(), 1);
        assert_eq!(objects[0].position(), (23, 17));
    }
    assert_eq!(check_config(&base), Ok(()));
}

#[test]
fn smallest_rooms_still_have_a_floor() {
    let config = MapConfig { width: 5, height: 5, max_rooms: 4, room_min_size: 2, room_max_size: 2, max_monsters_per_room: 1 };
    let mut objects = vec![player()];
    let d = generate(&config, &mut objects).unwrap();
    let (x, y) = objects[0].position();
    assert!(!d.map.tile_at(x, y).blocked);
}

#[test]
fn draws_choose_the_monster_kind() {
    let orc = monster_at(2, 3, true);
    assert_eq!((orc.x, orc.y, orc.char, orc.name.as_str()), (2, 3, 'o', "orc"));
    assert_eq!(orc.color, Color { r: 63, g: 127, b: 63 });
    assert!(orc.blocks && !orc.alive);
    let troll = monster_at(4, 5, false);
    assert_eq!((troll.char, troll.name.as_str()), ('T', "troll"));
    assert_eq!(troll.color, Color { r: 0, g: 127, b: 0 });
    assert!(troll.blocks);
    let mut objects = vec![player()];
    add_monsters(Rect::new(1, 1, 5, 5), &vec![(2, 2, true), (2, 2, false), (5, 4, true)], &mut objects);
    assert_eq!(objects.len(), 4);
    assert_eq!(objects[0].position(), (23, 17));
    assert_eq!((objects[1].position(), objects[1].char), ((2, 2), 'o'));
    assert_eq!((objects[2].position(), objects[2].char), ((2, 2), 'T'));
    assert_eq!((objects[3].position(), objects[3].char), ((5, 4), 'o'));
}

#[test]
fn generated_cells_are_rooms_and_tunnels_only() {
    for _ in 0..20 {
        let mut objects = vec![player()];
        let d = generate(&MapConfig::standard(), &mut objects).unwrap();
        assert_eq!(d.bends.len() + 1, d.rooms.len());
        let spawn = reachable(&d.map, d.rooms[0].center());
        for x in 0..80 {
            for y in 0..45 {
                let t = d.map.tile_at(x, y);
                assert!(!t.explored);
                assert_eq!(t.blocked, t.block_sight);
                if x == 0 || y == 0 || x == 79 || y == 44 {
                    assert!(t.blocked);
                }
                let in_room = d.rooms.iter().any(|r| x > r.x1 && x < r.x2 && y > r.y1 && y < r.y2);
                let on_tunnel = (0..d.bends.len()).any(|k| {
                    let (ax, ay) = d.rooms[k].center();
                    let (bx, by) = d.rooms[k + 1].center();
                    let (cx, cy) = match d.bends[k] {
                        Bend::HorizontalFirst => (bx, ay),
                        Bend::VerticalFirst => (ax, by),
                    };
                    (y == cy && x >= ax.min(bx) && x <= ax.max(bx)) || (x == cx && y >= ay.min(by) && y <= ay.max(by))
                });
                assert_eq!(!t.blocked, in_room || on_tunnel);
                if !t.blocked {
                    assert!(spawn[x as usize][y as usize]);
                }
            }
        }
    }
}
