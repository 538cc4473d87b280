use vstd::prelude::*;
use crate::dungeon::{center_of, dug, dungeon_ok, on_some_tunnel, on_tunnel, room_on_map, Bend, Dungeon, MapConfig};
use crate::object::Object;
use crate::rect::lemma_center_inside;
use crate::tile::{floor_tile, wall_tile};
use crate::walk::{
    connected, lemma_column_connected, lemma_connected_symmetric, lemma_connected_trans, lemma_row_connected,
};

verus! {

/// No two rooms of a generated dungeon intersect, in either order of asking:
/// they neither overlap nor share a wall.
pub proof fn law_rooms_never_intersect(c: MapConfig, d: &Dungeon, before: Seq<Object>, after: Seq<Object>)
    requires
        dungeon_ok(c, d, before, after),
    ensures
        forall|i: int, j: int|
            #![trigger d.rooms@[i], d.rooms@[j]]
            0 <= i < d.rooms@.len() && 0 <= j < d.rooms@.len() && i != j ==> !d.rooms@[i].overlaps(&d.rooms@[j]),
{
    assert forall|i: int, j: int|
        #![trigger d.rooms@[i], d.rooms@[j]]
        0 <= i < d.rooms@.len() && 0 <= j < d.rooms@.len() && i != j implies !d.rooms@[i].overlaps(&d.rooms@[j]) by {
        if j < i {
            assert(!d.rooms@[j].overlaps(&d.rooms@[i]));
        }
    }
}

/// The spawn point of a generated dungeon, the first room's center, is an
/// open cell, and the player stands on it.
pub proof fn law_spawn_is_open(c: MapConfig, d: &Dungeon, before: Seq<Object>, after: Seq<Object>)
    requires
        dungeon_ok(c, d, before, after),
        d.rooms@.len() > 0,
    ensures
        d.map.open_at(center_of(d.rooms@[0]).0, center_of(d.rooms@[0]).1),
        after[0].x == center_of(d.rooms@[0]).0,
        after[0].y == center_of(d.rooms@[0]).1,
{
    lemma_center_inside(d.rooms@[0]);
    assert(d.rooms@[0].interior_contains(center_of(d.rooms@[0]).0, center_of(d.rooms@[0]).1));
}

/// In a generated dungeon every room's center can be walked to from every
/// other room's center over open cells.
pub proof fn law_rooms_connected(c: MapConfig, d: &Dungeon, before: Seq<Object>, after: Seq<Object>)
    requires
        dungeon_ok(c, d, before, after),
    ensures
        forall|i: int, j: int|
            #![trigger d.rooms@[i], d.rooms@[j]]
            0 <= i < d.rooms@.len() && 0 <= j < d.rooms@.len() ==> connected(
                &d.map,
                center_of(d.rooms@[i]),
                center_of(d.rooms@[j]),
            ),
{
    let rs = d.rooms@;
    assert forall|i: int, j: int|
        #![trigger rs[i], rs[j]]
        0 <= i < rs.len() && 0 <= j < rs.len() implies connected(&d.map, center_of(rs[i]), center_of(rs[j])) by {
        assert(connected(&d.map, center_of(rs[0]), center_of(rs[i])));
        assert(connected(&d.map, center_of(rs[0]), center_of(rs[j])));
        lemma_connected_symmetric(&d.map, center_of(rs[0]), center_of(rs[i]));
        lemma_connected_trans(&d.map, center_of(rs[i]), center_of(rs[0]), center_of(rs[j]));
    }
}

/// Every cell of a generated dungeon is unexplored, and blocks sight exactly
/// when it blocks movement.
pub proof fn law_fresh_cells(c: MapConfig, d: &Dungeon, before: Seq<Object>, after: Seq<Object>)
    requires
        dungeon_ok(c, d, before, after),
    ensures
        forall|x: int, y: int|
            d.map.in_bounds(x, y) ==> !(#[trigger] d.map.cell(x, y)).explored && d.map.cell(x, y).block_sight
                == d.map.cell(x, y).blocked,
{
    assert forall|x: int, y: int| d.map.in_bounds(x, y) implies !(#[trigger] d.map.cell(x, y)).explored
        && d.map.cell(x, y).block_sight == d.map.cell(x, y).blocked by {
        assert(d.map.cell(x, y) == floor_tile() || d.map.cell(x, y) == wall_tile());
    }
}

/// A cell on the tunnel that joins rooms `k` and `k + 1` lies at least one
/// cell away from the map's edge, and is open.
pub proof fn lemma_tunnel_cell_open(c: MapConfig, d: &Dungeon, before: Seq<Object>, after: Seq<Object>, k: int, x: int, y: int)
    requires
        dungeon_ok(c, d, before, after),
        0 <= k < d.bends@.len(),
        on_tunnel(center_of(d.rooms@[k]), center_of(d.rooms@[k + 1]), d.bends@[k], x, y),
    ensures
        1 <= x < d.map.width - 1,
        1 <= y < d.map.height - 1,
        d.map.open_at(x, y),
{
    let r0 = d.rooms@[k];
    let r1 = d.rooms@[k + 1];
    assert(room_on_map(r0, &d.map));
    assert(room_on_map(r1, &d.map));
    lemma_center_inside(r0);
    lemma_center_inside(r1);
    assert(on_some_tunnel(d.rooms@, d.bends@, x, y));
    assert(dug(d.rooms@, d.bends@, x, y));
    assert(d.map.in_bounds(x, y));
    assert(d.map.cell(x, y) == floor_tile());
}

/// The outermost rows and columns of a generated map stay blocked.
pub proof fn law_border_closed(c: MapConfig, d: &Dungeon, before: Seq<Object>, after: Seq<Object>)
    requires
        dungeon_ok(c, d, before, after),
    ensures
        forall|x: int, y: int|
            d.map.in_bounds(x, y) && (x == 0 || y == 0 || x == d.map.width - 1 || y == d.map.height - 1)
                ==> (#[trigger] d.map.cell(x, y)).blocked,
{
    assert forall|x: int, y: int|
        d.map.in_bounds(x, y) && (x == 0 || y == 0 || x == d.map.width - 1 || y == d.map.height - 1)
            implies (#[trigger] d.map.cell(x, y)).blocked by {
        if dug(d.rooms@, d.bends@, x, y) {
            if on_some_tunnel(d.rooms@, d.bends@, x, y) {
                let k = choose|k: int|
                    0 <= k < d.bends@.len() && on_tunnel(
                        center_of(d.rooms@[k]),
                        center_of(d.rooms@[k + 1]),
                        #[trigger] d.bends@[k],
                        x,
                        y,
                    );
                lemma_tunnel_cell_open(c, d, before, after, k, x, y);
            } else {
                let k = choose|k: int| 0 <= k < d.rooms@.len() && (#[trigger] d.rooms@[k]).interior_contains(x, y);
                assert(room_on_map(d.rooms@[k], &d.map));
            }
        }
    }
}

/// Every open cell of a generated dungeon can be walked to from the spawn
/// point, the first room's center.
pub proof fn law_open_cells_reach_spawn(c: MapConfig, d: &Dungeon, before: Seq<Object>, after: Seq<Object>)
    requires
        dungeon_ok(c, d, before, after),
        d.rooms@.len() > 0,
    ensures
        forall|x: int, y: int| #[trigger] d.map.open_at(x, y) ==> connected(&d.map, center_of(d.rooms@[0]), (x, y)),
{
    let g = &d.map;
    let rs = d.rooms@;
    let bs = d.bends@;
    let c0 = center_of(rs[0]);
    assert forall|x: int, y: int| #[trigger] g.open_at(x, y) implies connected(g, c0, (x, y)) by {
        assert(g.cell(x, y) != wall_tile());
        assert(dug(rs, bs, x, y));
        if on_some_tunnel(rs, bs, x, y) {
            let k = choose|k: int| 0 <= k < bs.len() && on_tunnel(center_of(rs[k]), center_of(rs[k + 1]), #[trigger] bs[k], x, y);
            let a = center_of(rs[k]);
            let b = center_of(rs[k + 1]);
            assert(connected(g, c0, a));
            assert(connected(g, c0, b));
            assert forall|t: int|
                (a.0 <= t <= x || x <= t <= a.0) && y == a.1 && bs[k] == Bend::HorizontalFirst
                    implies #[trigger] g.open_at(t, y) by {
                lemma_tunnel_cell_open(c, d, before, after, k, t, y);
            }
            assert forall|t: int|
                (b.1 <= t <= y || y <= t <= b.1) && x == b.0 && bs[k] == Bend::HorizontalFirst
                    implies #[trigger] g.open_at(x, t) by {
                lemma_tunnel_cell_open(c, d, before, after, k, x, t);
            }
            assert forall|t: int|
                (a.1 <= t <= y || y <= t <= a.1) && x == a.0 && bs[k] == Bend::VerticalFirst
                    implies #[trigger] g.open_at(x, t) by {
                lemma_tunnel_cell_open(c, d, before, after, k, x, t);
            }
            assert forall|t: int|
                (b.0 <= t <= x || x <= t <= b.0) && y == b.1 && bs[k] == Bend::VerticalFirst
                    implies #[trigger] g.open_at(t, y) by {
                lemma_tunnel_cell_open(c, d, before, after, k, t, y);
            }
            match bs[k] {
                Bend::HorizontalFirst => {
                    if y == a.1 && (a.0 <= x <= b.0 || b.0 <= x <= a.0) {
                        lemma_row_connected(g, y, a.0, x);
                        lemma_connected_trans(g, c0, a, (x, y));
                    } else {
                        lemma_column_connected(g, x, b.1, y);
                        lemma_connected_trans(g, c0, b, (x, y));
                    }
                },
                Bend::VerticalFirst => {
                    if x == a.0 && (a.1 <= y <= b.1 || b.1 <= y <= a.1) {
                        lemma_column_connected(g, x, a.1, y);
                        lemma_connected_trans(g, c0, a, (x, y));
                    } else {
                        lemma_row_connected(g, y, b.0, x);
                        lemma_connected_trans(g, c0, b, (x, y));
                    }
                },
            }
        } else {
            let k = choose|k: int| 0 <= k < rs.len() && (#[trigger] rs[k]).interior_contains(x, y);
            let r = rs[k];
            let ck = center_of(r);
            lemma_center_inside(r);
            assert(room_on_map(r, g));
            assert(connected(g, c0, ck));
            assert forall|t: int| (ck.0 <= t <= x || x <= t <= ck.0) implies #[trigger] g.open_at(t, ck.1) by {
                assert(r.interior_contains(t, ck.1));
            }
            assert forall|t: int| (ck.1 <= t <= y || y <= t <= ck.1) implies #[trigger] g.open_at(x, t) by {
                assert(r.interior_contains(x, t));
            }
            lemma_row_connected(g, ck.1, ck.0, x);
            lemma_column_connected(g, x, ck.1, y);
            lemma_connected_trans(g, ck, (x, ck.1), (x, y));
            lemma_connected_trans(g, c0, ck, (x, y));
        }
    }
}

} // verus!
