use vstd::prelude::*;
use crate::object::{relocated, Color, Object, PLAYER_INDEX};
use crate::rect::{lemma_center_inside, Rect};
use crate::tile::{floor_tile, wall_tile, Grid, Tile};
use crate::walk::{connected, lemma_column_connected, lemma_connected_kept, lemma_connected_trans, lemma_row_connected};

verus! {

/// Which leg of an L-shaped tunnel is dug first.
#[derive(Clone, Copy, Debug, PartialEq, Eq, Structural)]
pub enum Bend {
    /// Along the previous room's row, then along the new room's column: the
    /// corner is at `(new.x, prev.y)`.
    HorizontalFirst,
    /// Along the previous room's column, then along the new room's row: the
    /// corner is at `(prev.x, new.y)`.
    VerticalFirst,
}

pub open spec fn center_of(r: Rect) -> (int, int) {
    (r.center_x(), r.center_y())
}

/// The room lies on the map, walls included, and its floor is not empty.
pub open spec fn room_on_map(r: Rect, g: &Grid) -> bool {
    &&& r.wf()
    &&& 0 <= r.x1
    &&& 0 <= r.y1
    &&& r.x2 < g.width
    &&& r.y2 < g.height
    &&& r.x2 - r.x1 >= 2
    &&& r.y2 - r.y1 >= 2
}

/// No two rooms of the list overlap or share a wall.
pub open spec fn rooms_apart(rooms: Seq<Rect>) -> bool {
    forall|i: int, j: int|
        #![trigger rooms[i], rooms[j]]
        0 <= i < j < rooms.len() ==> !rooms[i].overlaps(&rooms[j])
}

/// The floor of every room is open.
pub open spec fn rooms_carved(g: &Grid, rooms: Seq<Rect>) -> bool {
    forall|k: int, x: int, y: int|
        0 <= k < rooms.len() && (#[trigger] rooms[k]).interior_contains(x, y) ==> #[trigger] g.open_at(x, y)
}

/// Every room's center can be walked to from the first room's center.
pub open spec fn rooms_linked(g: &Grid, rooms: Seq<Rect>) -> bool {
    forall|k: int| 0 <= k < rooms.len() ==> connected(g, center_of(rooms[0]), center_of(#[trigger] rooms[k]))
}

/// The cell lies on the L-shaped tunnel from `a` to `b` dug in the order `bend`.
pub open spec fn on_tunnel(a: (int, int), b: (int, int), bend: Bend, x: int, y: int) -> bool {
    let (cx, cy) = match bend {
        Bend::HorizontalFirst => (b.0, a.1),
        Bend::VerticalFirst => (a.0, b.1),
    };
    ||| y == cy && (a.0 <= x <= b.0 || b.0 <= x <= a.0)
    ||| x == cx && (a.1 <= y <= b.1 || b.1 <= y <= a.1)
}

/// Opens every cell strictly inside the walls of `room`.
pub fn create_room(room: Rect, map: &mut Grid)
    requires
        old(map).wf(),
        room.wf(),
        0 <= room.x1,
        0 <= room.y1,
        room.x2 <= old(map).width,
        room.y2 <= old(map).height,
    ensures
        final(map).wf(),
        final(map).width == old(map).width,
        final(map).height == old(map).height,
        forall|x: int, y: int|
            old(map).in_bounds(x, y) ==> #[trigger] final(map).cell(x, y) == if room.interior_contains(
                x,
                y,
            ) {
                floor_tile()
            } else {
                old(map).cell(x, y)
            },
        old(map).keeps_open(&*final(map)),
{
    let ghost start = *map;
    let mut x: i32 = room.x1 + 1;
    while x < room.x2
        invariant
            map.wf(),
            map.width == start.width,
            map.height == start.height,
            room.x2 <= start.width,
            room.y2 <= start.height,
            0 <= room.x1,
            0 <= room.y1,
            room.wf(),
            room.x1 + 1 <= x <= room.x2,
            forall|a: int, b: int|
                start.in_bounds(a, b) ==> #[trigger] map.cell(a, b) == if room.x1 < a < x && room.y1
                    < b < room.y2 {
                    floor_tile()
                } else {
                    start.cell(a, b)
                },
        decreases room.x2 - x,
    {
        let mut y: i32 = room.y1 + 1;
        while y < room.y2
            invariant
                map.wf(),
                map.width == start.width,
                map.height == start.height,
                room.y2 <= start.height,
                0 <= room.y1,
                0 <= room.x1 < x < room.x2 <= start.width,
                room.wf(),
                room.y1 + 1 <= y <= room.y2,
                forall|a: int, b: int|
                    start.in_bounds(a, b) ==> #[trigger] map.cell(a, b) == if (room.x1 < a < x
                        && room.y1 < b < room.y2) || (a == x && room.y1 < b < y) {
                        floor_tile()
                    } else {
                        start.cell(a, b)
                    },
            decreases room.y2 - y,
        {
            map.set_tile(x, y, Tile::empty());
            y = y + 1;
        }
        x = x + 1;
    }
    assert forall|a: int, b: int| start.open_at(a, b) implies map.open_at(a, b) by {
        assert(map.cell(a, b) == start.cell(a, b) || map.cell(a, b) == floor_tile());
    }
}

/// Opens row `y` from `x1` to `x2`, both ends included.
pub fn create_h_tunnel(x1: i32, x2: i32, y: i32, map: &mut Grid)
    requires
        old(map).wf(),
        old(map).in_bounds(x1 as int, y as int),
        old(map).in_bounds(x2 as int, y as int),
    ensures
        final(map).wf(),
        final(map).width == old(map).width,
        final(map).height == old(map).height,
        forall|a: int, b: int|
            old(map).in_bounds(a, b) ==> #[trigger] final(map).cell(a, b) == if b == y && (x1 <= a
                <= x2 || x2 <= a <= x1) {
                floor_tile()
            } else {
                old(map).cell(a, b)
            },
        old(map).keeps_open(&*final(map)),
{
    let ghost start = *map;
    let lo: i32 = if x1 < x2 { x1 } else { x2 };
    let hi: i32 = if x1 < x2 { x2 } else { x1 };
    let mut x: i32 = lo;
    while x <= hi
        invariant
            map.wf(),
            map.width == start.width,
            map.height == start.height,
            start.in_bounds(lo as int, y as int),
            start.in_bounds(hi as int, y as int),
            lo <= x <= hi + 1,
            lo == x1 || lo == x2,
            hi == x1 || hi == x2,
            lo <= hi,
            forall|a: int, b: int|
                start.in_bounds(a, b) ==> #[trigger] map.cell(a, b) == if b == y && lo <= a < x {
                    floor_tile()
                } else {
                    start.cell(a, b)
                },
        decreases hi + 1 - x,
    {
        map.set_tile(x, y, Tile::empty());
        x = x + 1;
    }
    assert forall|a: int, b: int| start.open_at(a, b) implies map.open_at(a, b) by {
        assert(map.cell(a, b) == start.cell(a, b) || map.cell(a, b) == floor_tile());
    }
}

/// Opens column `x` from `y1` to `y2`, both ends included.
pub fn create_v_tunnel(y1: i32, y2: i32, x: i32, map: &mut Grid)
    requires
        old(map).wf(),
        old(map).in_bounds(x as int, y1 as int),
        old(map).in_bounds(x as int, y2 as int),
    ensures
        final(map).wf(),
        final(map).width == old(map).width,
        final(map).height == old(map).height,
        forall|a: int, b: int|
            old(map).in_bounds(a, b) ==> #[trigger] final(map).cell(a, b) == if a == x && (y1 <= b
                <= y2 || y2 <= b <= y1) {
                floor_tile()
            } else {
                old(map).cell(a, b)
            },
        old(map).keeps_open(&*final(map)),
{
    let ghost start = *map;
    let lo: i32 = if y1 < y2 { y1 } else { y2 };
    let hi: i32 = if y1 < y2 { y2 } else { y1 };
    let mut y: i32 = lo;
    while y <= hi
        invariant
            map.wf(),
            map.width == start.width,
            map.height == start.height,
            start.in_bounds(x as int, lo as int),
            start.in_bounds(x as int, hi as int),
            lo <= y <= hi + 1,
            lo == y1 || lo == y2,
            hi == y1 || hi == y2,
            lo <= hi,
            forall|a: int, b: int|
                start.in_bounds(a, b) ==> #[trigger] map.cell(a, b) == if a == x && lo <= b < y {
                    floor_tile()
                } else {
                    start.cell(a, b)
                },
        decreases hi + 1 - y,
    {
        map.set_tile(x, y, Tile::empty());
        y = y + 1;
    }
    assert forall|a: int, b: int| start.open_at(a, b) implies map.open_at(a, b) by {
        assert(map.cell(a, b) == start.cell(a, b) || map.cell(a, b) == floor_tile());
    }
}

/// Digs an L-shaped tunnel between the cells `a` and `b`.
pub fn connect_cells(a: (i32, i32), b: (i32, i32), bend: Bend, map: &mut Grid)
    requires
        old(map).wf(),
        old(map).in_bounds(a.0 as int, a.1 as int),
        old(map).in_bounds(b.0 as int, b.1 as int),
    ensures
        final(map).wf(),
        final(map).width == old(map).width,
        final(map).height == old(map).height,
        forall|x: int, y: int|
            old(map).in_bounds(x, y) ==> #[trigger] final(map).cell(x, y) == if on_tunnel(
                (a.0 as int, a.1 as int),
                (b.0 as int, b.1 as int),
                bend,
                x,
                y,
            ) {
                floor_tile()
            } else {
                old(map).cell(x, y)
            },
        old(map).keeps_open(&*final(map)),
        connected(&*final(map), (a.0 as int, a.1 as int), (b.0 as int, b.1 as int)),
{
    let ghost start = *map;
    match bend {
        Bend::HorizontalFirst => {
            create_h_tunnel(a.0, b.0, a.1, map);
            create_v_tunnel(a.1, b.1, b.0, map);
        },
        Bend::VerticalFirst => {
            create_v_tunnel(a.1, b.1, a.0, map);
            create_h_tunnel(a.0, b.0, b.1, map);
        },
    }
    let ghost g = *map;
    let ghost corner = match bend {
        Bend::HorizontalFirst => (b.0 as int, a.1 as int),
        Bend::VerticalFirst => (a.0 as int, b.1 as int),
    };
    proof {
        assert forall|x: int, y: int| start.open_at(x, y) implies g.open_at(x, y) by {
            assert(g.cell(x, y) == start.cell(x, y) || g.cell(x, y) == floor_tile());
        }
        match bend {
            Bend::HorizontalFirst => {
                assert forall|x: int| (a.0 <= x <= b.0 || b.0 <= x <= a.0) implies #[trigger] g.open_at(x, a.1 as int) by {
                    assert(g.cell(x, a.1 as int) == floor_tile());
                }
                assert forall|y: int| (a.1 <= y <= b.1 || b.1 <= y <= a.1) implies #[trigger] g.open_at(b.0 as int, y) by {
                    assert(g.cell(b.0 as int, y) == floor_tile());
                }
                lemma_row_connected(&g, a.1 as int, a.0 as int, b.0 as int);
                lemma_column_connected(&g, b.0 as int, a.1 as int, b.1 as int);
            },
            Bend::VerticalFirst => {
                assert forall|y: int| (a.1 <= y <= b.1 || b.1 <= y <= a.1) implies #[trigger] g.open_at(a.0 as int, y) by {
                    assert(g.cell(a.0 as int, y) == floor_tile());
                }
                assert forall|x: int| (a.0 <= x <= b.0 || b.0 <= x <= a.0) implies #[trigger] g.open_at(x, b.1 as int) by {
                    assert(g.cell(x, b.1 as int) == floor_tile());
                }
                lemma_column_connected(&g, a.0 as int, a.1 as int, b.1 as int);
                lemma_row_connected(&g, b.1 as int, a.0 as int, b.0 as int);
            },
        }
        lemma_connected_trans(&g, (a.0 as int, a.1 as int), corner, (b.0 as int, b.1 as int));
    }
}

/// Places `new_room` unless it overlaps or touches a room already placed.
/// An accepted room has its floor opened and is joined to the previous room by
/// a tunnel dug in the order `bend`; the first room accepted receives the
/// player at its center.
pub fn try_add_room(
    new_room: Rect,
    bend: Bend,
    map: &mut Grid,
    rooms: &mut Vec<Rect>,
    objects: &mut Vec<Object>,
) -> (accepted: bool)
    requires
        old(map).wf(),
        room_on_map(new_room, &*old(map)),
        forall|k: int| 0 <= k < old(rooms)@.len() ==> room_on_map(#[trigger] old(rooms)@[k], &*old(map)),
        rooms_apart(old(rooms)@),
        rooms_carved(&*old(map), old(rooms)@),
        rooms_linked(&*old(map), old(rooms)@),
        old(objects)@.len() > PLAYER_INDEX,
    ensures
        accepted == forall|k: int| 0 <= k < old(rooms)@.len() ==> !new_room.overlaps(&#[trigger] old(rooms)@[k]),
        accepted ==> final(rooms)@ == old(rooms)@.push(new_room),
        !accepted ==> final(rooms)@ == old(rooms)@ && *final(map) == *old(map),
        final(map).wf(),
        old(map).keeps_open(&*final(map)),
        accepted ==> forall|x: int, y: int|
            old(map).in_bounds(x, y) ==> #[trigger] final(map).cell(x, y) == if new_room.interior_contains(x, y) || (
            old(rooms)@.len() > 0 && on_tunnel(center_of(old(rooms)@.last()), center_of(new_room), bend, x, y)) {
                floor_tile()
            } else {
                old(map).cell(x, y)
            },
        forall|k: int| 0 <= k < final(rooms)@.len() ==> room_on_map(#[trigger] final(rooms)@[k], &*final(map)),
        rooms_apart(final(rooms)@),
        rooms_carved(&*final(map), final(rooms)@),
        rooms_linked(&*final(map), final(rooms)@),
        final(objects)@ == if accepted && old(rooms)@.len() == 0 {
            old(objects)@.update(
                PLAYER_INDEX as int,
                relocated(old(objects)@[PLAYER_INDEX as int], new_room.center_x(), new_room.center_y()),
            )
        } else {
            old(objects)@
        },
{
    let mut i: usize = 0;
    while i < rooms.len()
        invariant
            i <= rooms@.len(),
            forall|k: int| 0 <= k < i ==> !new_room.overlaps(&#[trigger] rooms@[k]),
            *map == *old(map),
            rooms@ == old(rooms)@,
            objects@ == old(objects)@,
            map.wf(),
            forall|k: int| 0 <= k < rooms@.len() ==> room_on_map(#[trigger] rooms@[k], &*map),
            rooms_apart(rooms@),
            rooms_carved(&*map, rooms@),
            rooms_linked(&*map, rooms@),
        decreases rooms.len() - i,
    {
        if new_room.intersects_with_rect(&rooms[i]) {
            return false;
        }
        i = i + 1;
    }
    let ghost start = *map;
    let ghost old_rooms = rooms@;
    create_room(new_room, map);
    let (new_x, new_y) = new_room.center();
    proof {
        lemma_center_inside(new_room);
    }
    if rooms.len() == 0 {
        objects[PLAYER_INDEX].move_to(new_x, new_y);
    } else {
        let last = rooms.len() - 1;
        let (prev_x, prev_y) = rooms[last].center();
        proof {
            lemma_center_inside(old_rooms[last as int]);
        }
        connect_cells((prev_x, prev_y), (new_x, new_y), bend, map);
    }
    let ghost g = *map;
    rooms.push(new_room);
    proof {
        let rs = rooms@;
        if old_rooms.len() > 0 {
            assert(old_rooms.last() == old_rooms[old_rooms.len() - 1]);
        }
        assert(start.keeps_open(&g));
        assert forall|k: int, x: int, y: int|
            0 <= k < rs.len() && (#[trigger] rs[k]).interior_contains(x, y) implies #[trigger] g.open_at(x, y) by {
            if k < old_rooms.len() {
                assert(old_rooms[k] == rs[k]);
                assert(start.open_at(x, y));
            } else {
                assert(rs[k] == new_room);
            }
        }
        assert(g.open_at(new_room.center_x(), new_room.center_y()));
        if old_rooms.len() == 0 {
            lemma_row_connected(&g, new_room.center_y(), new_room.center_x(), new_room.center_x());
        } else {
            assert(rs[0] == old_rooms[0]);
            let last = old_rooms.len() - 1;
            assert forall|k: int| 0 <= k < rs.len() implies connected(&g, center_of(rs[0]), center_of(#[trigger] rs[k])) by {
                if k < old_rooms.len() {
                    assert(rs[k] == old_rooms[k]);
                    lemma_connected_kept(&start, &g, center_of(old_rooms[0]), center_of(old_rooms[k]));
                } else {
                    assert(rs[k] == new_room);
                    assert(connected(&start, center_of(old_rooms[0]), center_of(old_rooms[last])));
                    lemma_connected_kept(&start, &g, center_of(old_rooms[0]), center_of(old_rooms[last]));
                    lemma_connected_trans(&g, center_of(old_rooms[0]), center_of(old_rooms[last]), center_of(new_room));
                }
            }
        }
        assert forall|i: int, j: int| 0 <= i < j < rs.len() implies !rs[i].overlaps(&rs[j]) by {
            if j < old_rooms.len() {
                assert(rs[i] == old_rooms[i] && rs[j] == old_rooms[j]);
            } else {
                assert(rs[i] == old_rooms[i]);
                assert(!new_room.overlaps(&old_rooms[i]));
            }
        }
    }
    true
}

/// Relies on rand's `Rng::gen_range` on the thread-local generator: a value
/// in `[low, high)`; it panics when `low >= high`.
#[verifier::external_body]
fn random_in_range(low: i32, high: i32) -> (r: i32)
    requires
        low < high,
    ensures
        low <= r < high,
{
    rand::Rng::gen_range(&mut rand::thread_rng(), low, high)
}

/// Relies on rand's `Rng::gen_ratio` on the thread-local generator: `true`
/// with chance `numerator / denominator`, always when the two are equal and
/// never when `numerator` is zero; it panics when `denominator` is zero or
/// below `numerator`.
#[verifier::external_body]
fn random_ratio(numerator: u32, denominator: u32) -> (r: bool)
    requires
        0 < denominator,
        numerator <= denominator,
    ensures
        numerator == denominator ==> r,
        numerator == 0 ==> !r,
{
    rand::Rng::gen_ratio(&mut rand::thread_rng(), numerator, denominator)
}

/// Relies on `rand::random::<bool>`: a fair coin.
#[verifier::external_body]
fn random_bool() -> (r: bool) {
    rand::random::<bool>()
}

/// Desaturated green.
pub fn orc_color() -> (c: Color)
    ensures
        c == (Color { r: 63, g: 127, b: 63 }),
{
    Color { r: 63, g: 127, b: 63 }
}

/// Darker green.
pub fn troll_color() -> (c: Color)
    ensures
        c == (Color { r: 0, g: 127, b: 0 }),
{
    Color { r: 0, g: 127, b: 0 }
}

/// The monster of the given kind standing at `(x, y)`: an orc when `is_orc`,
/// a troll otherwise. Both block movement.
pub open spec fn is_monster(o: Object, x: int, y: int, is_orc: bool) -> bool {
    &&& o.x == x
    &&& o.y == y
    &&& o.blocks
    &&& !o.alive
    &&& if is_orc {
        o.char == 'o' && o.name@ == "orc"@ && o.color == (Color { r: 63, g: 127, b: 63 })
    } else {
        o.char == 'T' && o.name@ == "troll"@ && o.color == (Color { r: 0, g: 127, b: 0 })
    }
}

/// One of the two monster kinds, standing at `(x, y)`.
pub open spec fn is_monster_at(o: Object, x: int, y: int) -> bool {
    is_monster(o, x, y, true) || is_monster(o, x, y, false)
}

/// A new monster at `(x, y)`: an orc when `is_orc`, a troll otherwise.
pub fn monster_at(x: i32, y: i32, is_orc: bool) -> (o: Object)
    ensures
        is_monster(o, x as int, y as int, is_orc),
{
    proof {
        reveal_strlit("orc");
        reveal_strlit("troll");
    }
    if is_orc {
        Object::new(x, y, 'o', "orc", orc_color(), true)
    } else {
        Object::new(x, y, 'T', "troll", troll_color(), true)
    }
}

/// Appends one monster per draw `(x, y, is_orc)`, in the order of the draws.
/// Draws may repeat a cell: monsters are not kept apart.
pub fn add_monsters(room: Rect, draws: &Vec<(i32, i32, bool)>, objects: &mut Vec<Object>)
    requires
        forall|k: int| 0 <= k < draws@.len() ==> room.interior_contains((#[trigger] draws@[k]).0 as int, draws@[k].1 as int),
    ensures
        final(objects)@.len() == old(objects)@.len() + draws@.len(),
        forall|i: int| 0 <= i < old(objects)@.len() ==> #[trigger] final(objects)@[i] == old(objects)@[i],
        forall|k: int|
            0 <= k < draws@.len() ==> is_monster(
                #[trigger] final(objects)@[old(objects)@.len() + k],
                draws@[k].0 as int,
                draws@[k].1 as int,
                draws@[k].2,
            ),
{
    let mut k: usize = 0;
    while k < draws.len()
        invariant
            k <= draws@.len(),
            objects@.len() == old(objects)@.len() + k,
            forall|i: int| 0 <= i < old(objects)@.len() ==> #[trigger] objects@[i] == old(objects)@[i],
            forall|j: int|
                0 <= j < k ==> is_monster(
                    #[trigger] objects@[old(objects)@.len() + j],
                    draws@[j].0 as int,
                    draws@[j].1 as int,
                    draws@[j].2,
                ),
        decreases draws.len() - k,
    {
        let (x, y, is_orc) = draws[k];
        objects.push(monster_at(x, y, is_orc));
        proof {
            assert(objects@[old(objects)@.len() + k] == objects@.last());
        }
        k = k + 1;
    }
}

/// Appends between zero and `max_monsters` monsters, each on a random floor
/// cell of `room`: four in five are orcs, the rest trolls. Monsters may share
/// a cell with each other or with the player.
pub fn place_objects_in_room(room: Rect, max_monsters: i32, objects: &mut Vec<Object>)
    requires
        room.x1 + 1 < room.x2,
        room.y1 + 1 < room.y2,
        0 <= max_monsters < i32::MAX,
    ensures
        old(objects)@.len() <= final(objects)@.len() <= old(objects)@.len() + max_monsters,
        forall|i: int| 0 <= i < old(objects)@.len() ==> #[trigger] final(objects)@[i] == old(objects)@[i],
        forall|i: int|
            old(objects)@.len() <= i < final(objects)@.len() ==> room.interior_contains(
                (#[trigger] final(objects)@[i]).x as int,
                final(objects)@[i].y as int,
            ) && is_monster_at(final(objects)@[i], final(objects)@[i].x as int, final(objects)@[i].y as int),
{
    let num_monsters = random_in_range(0, max_monsters + 1);
    let mut draws: Vec<(i32, i32, bool)> = Vec::new();
    let mut n: i32 = 0;
    while n < num_monsters
        invariant
            0 <= n <= num_monsters <= max_monsters,
            room.x1 + 1 < room.x2,
            room.y1 + 1 < room.y2,
            draws@.len() == n,
            forall|k: int| 0 <= k < draws@.len() ==> room.interior_contains((#[trigger] draws@[k]).0 as int, draws@[k].1 as int),
        decreases num_monsters - n,
    {
        let x = random_in_range(room.x1 + 1, room.x2);
        let y = random_in_range(room.y1 + 1, room.y2);
        let is_orc = random_ratio(4, 5);
        draws.push((x, y, is_orc));
        n = n + 1;
    }
    let ghost before = objects@;
    add_monsters(room, &draws, objects);
    proof {
        assert forall|i: int|
            before.len() <= i < objects@.len() implies room.interior_contains(
                (#[trigger] objects@[i]).x as int,
                objects@[i].y as int,
            ) && is_monster_at(objects@[i], objects@[i].x as int, objects@[i].y as int) by {
            let k = i - before.len();
            assert(objects@[before.len() + k] == objects@[i]);
            assert(room.interior_contains(draws@[k].0 as int, draws@[k].1 as int));
        }
    }
}

/// The bounds that a dungeon is generated under.
#[derive(Clone, Copy, Debug, PartialEq, Eq, Structural)]
pub struct MapConfig {
    pub width: i32,
    pub height: i32,
    pub max_rooms: i32,
    pub room_min_size: i32,
    pub room_max_size: i32,
    pub max_monsters_per_room: i32,
}

/// Why a set of generation bounds was rejected.
#[derive(Clone, Copy, Debug, PartialEq, Eq, Structural)]
pub enum ConfigError {
    /// The number of rooms or of monsters per room is negative, or the
    /// monster bound is the largest `i32`.
    BadCount,
    /// Rooms narrower than two cells from wall to wall would have no floor.
    RoomTooSmall,
    /// The smallest room size exceeds the largest.
    RoomSizesReversed,
    /// The largest room would not fit on the map.
    RoomTooLarge,
}

/// The first rule that `c` breaks, if any.
pub open spec fn config_error(c: MapConfig) -> Option<ConfigError> {
    if c.max_rooms < 0 || c.max_monsters_per_room < 0 || c.max_monsters_per_room == i32::MAX {
        Some(ConfigError::BadCount)
    } else if c.room_min_size < 2 {
        Some(ConfigError::RoomTooSmall)
    } else if c.room_min_size > c.room_max_size {
        Some(ConfigError::RoomSizesReversed)
    } else if c.room_max_size >= c.width || c.room_max_size >= c.height {
        Some(ConfigError::RoomTooLarge)
    } else {
        None
    }
}

impl MapConfig {
    /// An 80 by 45 map with up to 30 rooms of 6 to 10 cells and up to 3
    /// monsters in each.
    pub fn standard() -> (c: MapConfig)
        ensures
            c == (MapConfig {
                width: 80,
                height: 45,
                max_rooms: 30,
                room_min_size: 6,
                room_max_size: 10,
                max_monsters_per_room: 3,
            }),
            config_error(c) is None,
    {
        MapConfig {
            width: 80,
            height: 45,
            max_rooms: 30,
            room_min_size: 6,
            room_max_size: 10,
            max_monsters_per_room: 3,
        }
    }
}

/// Checks the generation bounds.
pub fn check_config(c: &MapConfig) -> (r: Result<(), ConfigError>)
    ensures
        r is Ok <==> config_error(*c) is None,
        r is Err ==> config_error(*c) == Some(r->Err_0),
{
    if c.max_rooms < 0 || c.max_monsters_per_room < 0 || c.max_monsters_per_room == i32::MAX {
        Err(ConfigError::BadCount)
    } else if c.room_min_size < 2 {
        Err(ConfigError::RoomTooSmall)
    } else if c.room_min_size > c.room_max_size {
        Err(ConfigError::RoomSizesReversed)
    } else if c.room_max_size >= c.width || c.room_max_size >= c.height {
        Err(ConfigError::RoomTooLarge)
    } else {
        Ok(())
    }
}

/// A generated map together with the rooms that were carved into it, in the
/// order they were placed, and the order in which each tunnel was dug:
/// `bends[k]` joins the centers of `rooms[k]` and `rooms[k + 1]`.
pub struct Dungeon {
    pub map: Grid,
    pub rooms: Vec<Rect>,
    pub bends: Vec<Bend>,
}

/// One bend for each pair of consecutive rooms.
pub open spec fn bends_fit(rooms: Seq<Rect>, bends: Seq<Bend>) -> bool {
    if rooms.len() == 0 {
        bends.len() == 0
    } else {
        bends.len() + 1 == rooms.len()
    }
}

/// The cell lies on one of the tunnels joining consecutive rooms.
pub open spec fn on_some_tunnel(rooms: Seq<Rect>, bends: Seq<Bend>, x: int, y: int) -> bool {
    exists|k: int|
        0 <= k < bends.len() && on_tunnel(center_of(rooms[k]), center_of(rooms[k + 1]), #[trigger] bends[k], x, y)
}

/// The cell was dug out: it lies on a room's floor or on a tunnel.
pub open spec fn dug(rooms: Seq<Rect>, bends: Seq<Bend>, x: int, y: int) -> bool {
    in_some_room(rooms, x, y) || on_some_tunnel(rooms, bends, x, y)
}

/// Every dug cell is fresh floor and every other cell is fresh wall.
pub open spec fn cells_exact(g: &Grid, rooms: Seq<Rect>, bends: Seq<Bend>) -> bool {
    forall|x: int, y: int|
        g.in_bounds(x, y) ==> #[trigger] g.cell(x, y) == if dug(rooms, bends, x, y) {
            floor_tile()
        } else {
            wall_tile()
        }
}

/// The cell lies on the floor of one of the rooms.
pub open spec fn in_some_room(rooms: Seq<Rect>, x: int, y: int) -> bool {
    exists|k: int| 0 <= k < rooms.len() && (#[trigger] rooms[k]).interior_contains(x, y)
}

/// The rooms obey the size bounds of `c` and lie on the map.
pub open spec fn rooms_within(c: MapConfig, g: &Grid, rooms: Seq<Rect>) -> bool {
    forall|k: int|
        0 <= k < rooms.len() ==> {
            &&& room_on_map(#[trigger] rooms[k], g)
            &&& c.room_min_size <= rooms[k].x2 - rooms[k].x1 <= c.room_max_size
            &&& c.room_min_size <= rooms[k].y2 - rooms[k].y1 <= c.room_max_size
        }
}

/// How the actor list after generation relates to the one before: the
/// player is moved to the first room's center, the others are kept, and the
/// new actors are monsters standing on room floors.
pub open spec fn actors_placed(rooms: Seq<Rect>, before: Seq<Object>, after: Seq<Object>) -> bool {
    &&& before.len() <= after.len()
    &&& forall|i: int| 0 < i < before.len() ==> #[trigger] after[i] == before[i]
    &&& after[0] == if rooms.len() == 0 {
        before[0]
    } else {
        relocated(before[0], rooms[0].center_x(), rooms[0].center_y())
    }
    &&& forall|i: int|
        before.len() <= i < after.len() ==> in_some_room(rooms, (#[trigger] after[i]).x as int, after[i].y as int)
            && is_monster_at(after[i], after[i].x as int, after[i].y as int)
}

/// What holds of every dungeon generated under `c`, whatever the random draws.
pub open spec fn dungeon_ok(c: MapConfig, d: &Dungeon, before: Seq<Object>, after: Seq<Object>) -> bool {
    &&& d.map.wf()
    &&& d.map.width == c.width
    &&& d.map.height == c.height
    &&& d.rooms@.len() <= c.max_rooms
    &&& c.max_rooms > 0 ==> d.rooms@.len() > 0
    &&& rooms_within(c, &d.map, d.rooms@)
    &&& rooms_apart(d.rooms@)
    &&& rooms_carved(&d.map, d.rooms@)
    &&& rooms_linked(&d.map, d.rooms@)
    &&& bends_fit(d.rooms@, d.bends@)
    &&& cells_exact(&d.map, d.rooms@, d.bends@)
    &&& actors_placed(d.rooms@, before, after)
    &&& after.len() <= before.len() + c.max_monsters_per_room * d.rooms@.len()
    &&& d.rooms@.len() > 0 ==> d.map.open_at(after[0].x as int, after[0].y as int)
}

/// Placing `new_room`, and joining it to the last room in the order `bend`,
/// keeps every cell fresh floor exactly where it was dug.
proof fn lemma_cells_after_room(g0: &Grid, g: &Grid, rooms0: Seq<Rect>, bends0: Seq<Bend>, new_room: Rect, bend: Bend)
    requires
        cells_exact(g0, rooms0, bends0),
        bends_fit(rooms0, bends0),
        g.width == g0.width,
        g.height == g0.height,
        forall|x: int, y: int|
            g0.in_bounds(x, y) ==> #[trigger] g.cell(x, y) == if new_room.interior_contains(x, y) || (
            rooms0.len() > 0 && on_tunnel(center_of(rooms0.last()), center_of(new_room), bend, x, y)) {
                floor_tile()
            } else {
                g0.cell(x, y)
            },
    ensures
        cells_exact(
            g,
            rooms0.push(new_room),
            if rooms0.len() > 0 { bends0.push(bend) } else { bends0 },
        ),
{
    let rs = rooms0.push(new_room);
    let bs = if rooms0.len() > 0 { bends0.push(bend) } else { bends0 };
    assert forall|cx: int, cy: int| g.in_bounds(cx, cy) implies #[trigger] g.cell(cx, cy) == if dug(rs, bs, cx, cy) {
        floor_tile()
    } else {
        wall_tile()
    } by {
        let tunnel_new = rooms0.len() > 0 && on_tunnel(center_of(rooms0.last()), center_of(new_room), bend, cx, cy);
        if in_some_room(rooms0, cx, cy) {
            let k = choose|k: int| 0 <= k < rooms0.len() && (#[trigger] rooms0[k]).interior_contains(cx, cy);
            assert(rs[k] == rooms0[k]);
        }
        if new_room.interior_contains(cx, cy) {
            assert(rs[rs.len() - 1] == new_room);
        }
        if on_some_tunnel(rooms0, bends0, cx, cy) {
            let k = choose|k: int| 0 <= k < bends0.len() && on_tunnel(center_of(rooms0[k]), center_of(rooms0[k + 1]), #[trigger] bends0[k], cx, cy);
            assert(rs[k] == rooms0[k] && rs[k + 1] == rooms0[k + 1] && bs[k] == bends0[k]);
        }
        if tunnel_new {
            let k = bends0.len() as int;
            assert(rs[k] == rooms0.last());
            assert(rs[k + 1] == new_room);
            assert(bs[k] == bend);
        }
        if in_some_room(rs, cx, cy) {
            let k = choose|k: int| 0 <= k < rs.len() && (#[trigger] rs[k]).interior_contains(cx, cy);
            if k < rooms0.len() {
                assert(rs[k] == rooms0[k]);
            }
        }
        if on_some_tunnel(rs, bs, cx, cy) {
            let k = choose|k: int| 0 <= k < bs.len() && on_tunnel(center_of(rs[k]), center_of(rs[k + 1]), #[trigger] bs[k], cx, cy);
            if k < bends0.len() {
                assert(rs[k] == rooms0[k] && rs[k + 1] == rooms0[k + 1] && bs[k] == bends0[k]);
            } else {
                assert(rs[k] == rooms0.last());
            }
        }
        assert(g0.in_bounds(cx, cy));
    }
}

/// The state of the map, rooms, bends and actors while rooms are being placed.
pub open spec fn generation_state(
    c: MapConfig,
    map: &Grid,
    rooms: Seq<Rect>,
    bends: Seq<Bend>,
    before: Seq<Object>,
    after: Seq<Object>,
) -> bool {
    &&& map.wf()
    &&& map.width == c.width
    &&& map.height == c.height
    &&& rooms_within(c, map, rooms)
    &&& rooms_apart(rooms)
    &&& rooms_carved(map, rooms)
    &&& rooms_linked(map, rooms)
    &&& bends_fit(rooms, bends)
    &&& cells_exact(map, rooms, bends)
    &&& actors_placed(rooms, before, after)
    &&& after.len() <= before.len() + c.max_monsters_per_room * rooms.len()
}

/// Tries one candidate room: places it with its tunnel and monsters unless it
/// touches a room already placed.
fn place_room_step(
    config: &MapConfig,
    new_room: Rect,
    bend: Bend,
    map: &mut Grid,
    rooms: &mut Vec<Rect>,
    bends: &mut Vec<Bend>,
    objects: &mut Vec<Object>,
    before: Ghost<Seq<Object>>,
)
    requires
        config_error(*config) is None,
        generation_state(*config, &*old(map), old(rooms)@, old(bends)@, before@, old(objects)@),
        before@.len() > 0,
        room_on_map(new_room, &*old(map)),
        config.room_min_size <= new_room.x2 - new_room.x1 <= config.room_max_size,
        config.room_min_size <= new_room.y2 - new_room.y1 <= config.room_max_size,
    ensures
        generation_state(*config, &*final(map), final(rooms)@, final(bends)@, before@, final(objects)@),
        old(rooms)@.len() <= final(rooms)@.len() <= old(rooms)@.len() + 1,
        old(rooms)@.len() == 0 ==> final(rooms)@.len() == 1,
{
    let ghost before = before@;
    let ghost rooms0 = rooms@;
    let ghost bends0 = bends@;
    let ghost map0 = *map;
    let ghost objects0 = objects@;
    let had_rooms = rooms.len() > 0;
    let accepted = try_add_room(new_room, bend, map, rooms, objects);
    let ghost objects1 = objects@;
    if accepted {
        if had_rooms {
            bends.push(bend);
        }
        place_objects_in_room(new_room, config.max_monsters_per_room, objects);
    }
    proof {
        let bs = bends@;
        let map = *map;
        if accepted {
            lemma_actors_after(
                rooms0,
                new_room,
                before,
                objects0,
                objects1,
                objects@,
                config.max_monsters_per_room as int,
            );
            lemma_rooms_within_after(*config, &map0, &map, rooms0, new_room);
            lemma_cells_after_room(&map0, &map, rooms0, bends0, new_room, bend);
            assert(bs == if rooms0.len() > 0 { bends0.push(bend) } else { bends0 });
        }
    }
}

/// The actors after one more room is accepted and populated.
proof fn lemma_actors_after(
    rooms0: Seq<Rect>,
    new_room: Rect,
    before: Seq<Object>,
    objects0: Seq<Object>,
    objects1: Seq<Object>,
    objects: Seq<Object>,
    m: int,
)
    requires
        actors_placed(rooms0, before, objects0),
        objects0.len() <= before.len() + m * rooms0.len(),
        0 <= m,
        before.len() > 0,
        objects1 == if rooms0.len() == 0 {
            objects0.update(0, relocated(objects0[0], new_room.center_x(), new_room.center_y()))
        } else {
            objects0
        },
        objects1.len() <= objects.len() <= objects1.len() + m,
        forall|i: int| 0 <= i < objects1.len() ==> #[trigger] objects[i] == objects1[i],
        forall|i: int|
            objects1.len() <= i < objects.len() ==> new_room.interior_contains(
                (#[trigger] objects[i]).x as int,
                objects[i].y as int,
            ) && is_monster_at(objects[i], objects[i].x as int, objects[i].y as int),
    ensures
        actors_placed(rooms0.push(new_room), before, objects),
        objects.len() <= before.len() + m * rooms0.push(new_room).len(),
{
    let rs = rooms0.push(new_room);
    assert forall|i: int|
        before.len() <= i < objects.len() implies in_some_room(rs, (#[trigger] objects[i]).x as int, objects[i].y as int)
            && is_monster_at(objects[i], objects[i].x as int, objects[i].y as int) by {
        if i < objects1.len() {
            assert(objects[i] == objects1[i]);
            assert(objects1[i] == objects0[i]);
            let k = choose|k: int| 0 <= k < rooms0.len() && (#[trigger] rooms0[k]).interior_contains(objects0[i].x as int, objects0[i].y as int);
            assert(rs[k] == rooms0[k]);
        } else {
            assert(rs[rs.len() - 1] == new_room);
        }
    }
    if rooms0.len() > 0 {
        assert(rs[0] == rooms0[0]);
    }
    assert forall|i: int| 0 < i < before.len() implies #[trigger] objects[i] == before[i] by {
        assert(objects[i] == objects1[i]);
    }
    let r0 = rooms0.len() as int;
    assert((r0 + 1) * m == r0 * m + m) by (nonlinear_arith);
}

/// The rooms still fit the bounds after one more is accepted.
proof fn lemma_rooms_within_after(c: MapConfig, g0: &Grid, g: &Grid, rooms0: Seq<Rect>, new_room: Rect)
    requires
        rooms_within(c, g0, rooms0),
        g.width == g0.width,
        g.height == g0.height,
        room_on_map(new_room, g0),
        c.room_min_size <= new_room.x2 - new_room.x1 <= c.room_max_size,
        c.room_min_size <= new_room.y2 - new_room.y1 <= c.room_max_size,
    ensures
        rooms_within(c, g, rooms0.push(new_room)),
{
    let rs = rooms0.push(new_room);
    assert forall|k: int| 0 <= k < rs.len() implies {
        &&& room_on_map(#[trigger] rs[k], g)
        &&& c.room_min_size <= rs[k].x2 - rs[k].x1 <= c.room_max_size
        &&& c.room_min_size <= rs[k].y2 - rs[k].y1 <= c.room_max_size
    } by {
        if k < rooms0.len() {
            assert(rs[k] == rooms0[k]);
        }
    }
}

/// Generates a dungeon under bounds that were already checked.
pub fn generate_checked(config: &MapConfig, objects: &mut Vec<Object>) -> (d: Dungeon)
    requires
        config_error(*config) is None,
        old(objects)@.len() > PLAYER_INDEX,
    ensures
        dungeon_ok(*config, &d, old(objects)@, final(objects)@),
{
    let mut map = Grid::new(config.width, config.height);
    let mut rooms: Vec<Rect> = Vec::new();
    let mut bends: Vec<Bend> = Vec::new();
    let ghost before = objects@;
    let mut n: i32 = 0;
    while n < config.max_rooms
        invariant
            config_error(*config) is None,
            0 <= n <= config.max_rooms,
            rooms@.len() <= n,
            n > 0 ==> rooms@.len() > 0,
            generation_state(*config, &map, rooms@, bends@, before, objects@),
            before.len() > 0,
        decreases config.max_rooms - n,
    {
        let w = random_in_range(config.room_min_size, config.room_max_size + 1);
        let h = random_in_range(config.room_min_size, config.room_max_size + 1);
        let x = random_in_range(0, config.width - w);
        let y = random_in_range(0, config.height - h);
        let new_room = Rect::new(x, y, w, h);
        let bend = if random_bool() {
            Bend::HorizontalFirst
        } else {
            Bend::VerticalFirst
        };
        place_room_step(config, new_room, bend, &mut map, &mut rooms, &mut bends, objects, Ghost(before));
        n = n + 1;
    }
    proof {
        if rooms@.len() > 0 {
            lemma_center_inside(rooms@[0]);
            assert(rooms@[0].interior_contains(rooms@[0].center_x(), rooms@[0].center_y()));
            assert(objects@[0].x == rooms@[0].center_x());
        }
    }
    Dungeon { map, rooms, bends }
}

/// Generates a dungeon: checks the bounds, then places rooms, tunnels and
/// monsters, and moves the player to the first room's center. The actor
/// list is left as it was when the bounds are rejected.
pub fn generate(config: &MapConfig, objects: &mut Vec<Object>) -> (r: Result<Dungeon, ConfigError>)
    requires
        old(objects)@.len() > PLAYER_INDEX,
    ensures
        match r {
            Ok(d) => config_error(*config) is None && dungeon_ok(*config, &d, old(objects)@, final(objects)@),
            Err(e) => config_error(*config) == Some(e) && final(objects)@ == old(objects)@,
        },
{
    match check_config(config) {
        Err(e) => Err(e),
        Ok(()) => Ok(generate_checked(config, objects)),
    }
}

/// Generates a dungeon under the standard bounds.
pub fn make_map(objects: &mut Vec<Object>) -> (d: Dungeon)
    requires
        old(objects)@.len() > PLAYER_INDEX,
    ensures
        dungeon_ok(
            MapConfig {
                width: 80,
                height: 45,
                max_rooms: 30,
                room_min_size: 6,
                room_max_size: 10,
                max_monsters_per_room: 3,
            },
            &d,
            old(objects)@,
            final(objects)@,
        ),
{
    let config = MapConfig::standard();
    generate_checked(&config, objects)
}

} // verus!
