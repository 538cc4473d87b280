use vstd::prelude::*;
use crate::object::{Color, Object};
use crate::tile::{Grid, Tile};

verus! {

/// What a field-of-view computation needs to know of one cell.
#[derive(Clone, Copy, Debug, PartialEq, Eq, Structural)]
pub struct FovCell {
    pub transparent: bool,
    pub walkable: bool,
}

pub open spec fn fov_cell_of(t: Tile) -> FovCell {
    FovCell { transparent: !t.block_sight, walkable: !t.blocked }
}

/// A visibility field shaped like `map`: one flag per cell, column by column.
pub open spec fn fits(map: &Grid, visible: Seq<Vec<bool>>) -> bool {
    &&& visible.len() == map.width
    &&& forall|x: int| 0 <= x < map.width ==> (#[trigger] visible[x])@.len() == map.height
}

/// The background colour of a cell, by whether it is in view and whether it
/// is a wall.
pub open spec fn shade(visible: bool, wall: bool) -> Color {
    match (visible, wall) {
        (false, true) => Color { r: 0, g: 0, b: 100 },
        (false, false) => Color { r: 50, g: 50, b: 150 },
        (true, true) => Color { r: 130, g: 110, b: 50 },
        (true, false) => Color { r: 200, g: 180, b: 50 },
    }
}

/// The field-of-view input for every cell of the map, column by column.
pub fn make_fov_map(map: &Grid) -> (cells: Vec<Vec<FovCell>>)
    requires
        map.wf(),
    ensures
        cells@.len() == map.width,
        forall|x: int| 0 <= x < map.width ==> (#[trigger] cells@[x])@.len() == map.height,
        forall|x: int, y: int| map.in_bounds(x, y) ==> #[trigger] cells@[x]@[y] == fov_cell_of(map.cell(x, y)),
{
    let mut cells: Vec<Vec<FovCell>> = Vec::new();
    let mut x: i32 = 0;
    while x < map.width()
        invariant
            map.wf(),
            0 <= x <= map.width,
            cells@.len() == x,
            forall|a: int| 0 <= a < x ==> (#[trigger] cells@[a])@.len() == map.height,
            forall|a: int, b: int| 0 <= a < x && 0 <= b < map.height ==> #[trigger] cells@[a]@[b] == fov_cell_of(map.cell(a, b)),
        decreases map.width - x,
    {
        let mut column: Vec<FovCell> = Vec::new();
        let mut y: i32 = 0;
        while y < map.height()
            invariant
                map.wf(),
                0 <= x < map.width,
                0 <= y <= map.height,
                column@.len() == y,
                forall|b: int| 0 <= b < y ==> #[trigger] column@[b] == fov_cell_of(map.cell(x as int, b)),
            decreases map.height - y,
        {
            let t = map.tile_at(x, y);
            column.push(FovCell { transparent: !t.block_sight, walkable: !t.blocked });
            y = y + 1;
        }
        cells.push(column);
        x = x + 1;
    }
    cells
}

/// Whether the field of view must be computed again: only when the observer
/// stands on another cell than at the last computation, or there was none.
pub fn needs_recompute(previous: Option<(i32, i32)>, current: (i32, i32)) -> (r: bool)
    ensures
        r == (previous != Some(current)),
{
    match previous {
        None => true,
        Some(p) => p.0 != current.0 || p.1 != current.1,
    }
}

/// The background colour of a cell.
pub fn tile_color(visible: bool, wall: bool) -> (c: Color)
    ensures
        c == shade(visible, wall),
{
    match (visible, wall) {
        (false, true) => Color { r: 0, g: 0, b: 100 },
        (false, false) => Color { r: 50, g: 50, b: 150 },
        (true, true) => Color { r: 130, g: 110, b: 50 },
        (true, false) => Color { r: 200, g: 180, b: 50 },
    }
}

/// Marks every cell in view as explored and returns, for each cell, the
/// background to paint: its colour once it has been explored, nothing before.
/// A cell never goes back to unexplored.
pub fn shade_map(map: &mut Grid, visible: &Vec<Vec<bool>>) -> (paint: Vec<Vec<Option<Color>>>)
    requires
        old(map).wf(),
        fits(&*old(map), visible@),
    ensures
        final(map).wf(),
        final(map).width == old(map).width,
        final(map).height == old(map).height,
        forall|x: int, y: int|
            old(map).in_bounds(x, y) ==> #[trigger] final(map).cell(x, y) == (Tile {
                explored: old(map).cell(x, y).explored || visible@[x]@[y],
                ..old(map).cell(x, y)
            }),
        forall|x: int, y: int|
            old(map).in_bounds(x, y) && old(map).cell(x, y).explored ==> #[trigger] final(map).cell(x, y).explored,
        paint@.len() == old(map).width,
        forall|x: int| 0 <= x < old(map).width ==> (#[trigger] paint@[x])@.len() == old(map).height,
        forall|x: int, y: int|
            old(map).in_bounds(x, y) ==> #[trigger] paint@[x]@[y] == if final(map).cell(x, y).explored {
                Some(shade(visible@[x]@[y], old(map).cell(x, y).block_sight))
            } else {
                None
            },
{
    let ghost start = *map;
    let mut paint: Vec<Vec<Option<Color>>> = Vec::new();
    let mut x: i32 = 0;
    while x < map.width()
        invariant
            map.wf(),
            map.width == start.width,
            map.height == start.height,
            fits(&start, visible@),
            0 <= x <= map.width,
            paint@.len() == x,
            forall|a: int| 0 <= a < x ==> (#[trigger] paint@[a])@.len() == map.height,
            forall|a: int, b: int|
                start.in_bounds(a, b) ==> #[trigger] map.cell(a, b) == if a < x {
                    Tile { explored: start.cell(a, b).explored || visible@[a]@[b], ..start.cell(a, b) }
                } else {
                    start.cell(a, b)
                },
            forall|a: int, b: int|
                0 <= a < x && 0 <= b < map.height ==> #[trigger] paint@[a]@[b] == if map.cell(a, b).explored {
                    Some(shade(visible@[a]@[b], start.cell(a, b).block_sight))
                } else {
                    None
                },
        decreases map.width - x,
    {
        let mut column: Vec<Option<Color>> = Vec::new();
        let mut y: i32 = 0;
        while y < map.height()
            invariant
                map.wf(),
                map.width == start.width,
                map.height == start.height,
                fits(&start, visible@),
                0 <= x < map.width,
                0 <= y <= map.height,
                column@.len() == y,
                forall|a: int, b: int|
                    start.in_bounds(a, b) ==> #[trigger] map.cell(a, b) == if a < x || (a == x && b < y) {
                        Tile { explored: start.cell(a, b).explored || visible@[a]@[b], ..start.cell(a, b) }
                    } else {
                        start.cell(a, b)
                    },
                forall|b: int|
                    0 <= b < y ==> #[trigger] column@[b] == if map.cell(x as int, b).explored {
                        Some(shade(visible@[x as int]@[b], start.cell(x as int, b).block_sight))
                    } else {
                        None
                    },
            decreases map.height - y,
        {
            let in_view = visible[x as usize][y as usize];
            let t = map.tile_at(x, y);
            let color = tile_color(in_view, t.block_sight);
            let explored = t.explored || in_view;
            if in_view {
                map.set_tile(x, y, Tile { explored: true, ..t });
            }
            column.push(if explored { Some(color) } else { None });
            y = y + 1;
        }
        paint.push(column);
        x = x + 1;
    }
    paint
}

/// The indices of the actors that stand on a cell in view, in registry order.
pub fn visible_objects(objects: &Vec<Object>, map: &Grid, visible: &Vec<Vec<bool>>) -> (shown: Vec<usize>)
    requires
        map.wf(),
        fits(map, visible@),
    ensures
        forall|k: int| 0 <= k < shown@.len() ==> #[trigger] shown@[k] < objects@.len(),
        forall|k: int, l: int| 0 <= k < l < shown@.len() ==> shown@[k] < shown@[l],
        forall|i: int|
            0 <= i < objects@.len() ==> (shown@.contains(i as usize) <==> map.in_bounds(
                (#[trigger] objects@[i]).x as int,
                objects@[i].y as int,
            ) && visible@[objects@[i].x as int]@[objects@[i].y as int]),
{
    let mut shown: Vec<usize> = Vec::new();
    let mut i: usize = 0;
    while i < objects.len()
        invariant
            map.wf(),
            fits(map, visible@),
            i <= objects@.len(),
            forall|k: int| 0 <= k < shown@.len() ==> #[trigger] shown@[k] < i,
            forall|k: int, l: int| 0 <= k < l < shown@.len() ==> shown@[k] < shown@[l],
            forall|j: int|
                0 <= j < i ==> (shown@.contains(j as usize) <==> map.in_bounds(
                    (#[trigger] objects@[j]).x as int,
                    objects@[j].y as int,
                ) && visible@[objects@[j].x as int]@[objects@[j].y as int]),
        decreases objects.len() - i,
    {
        let o = &objects[i];
        let ghost before = shown@;
        if 0 <= o.x && o.x < map.width() && 0 <= o.y && o.y < map.height() && visible[o.x as usize][o.y as usize] {
            shown.push(i);
        }
        proof {
            assert forall|j: int|
                0 <= j < i + 1 implies (shown@.contains(j as usize) <==> map.in_bounds(
                    (#[trigger] objects@[j]).x as int,
                    objects@[j].y as int,
                ) && visible@[objects@[j].x as int]@[objects@[j].y as int]) by {
                if j < i {
                    if before.contains(j as usize) {
                        let k = choose|k: int| 0 <= k < before.len() && before[k] == j as usize;
                        assert(shown@[k] == j as usize);
                    }
                    if shown@.contains(j as usize) {
                        let k = choose|k: int| 0 <= k < shown@.len() && shown@[k] == j as usize;
                        if k == before.len() {
                        } else {
                            assert(before[k] == j as usize);
                        }
                    }
                } else {
                    if shown@.len() > before.len() {
                        assert(shown@[before.len() as int] == i);
                    }
                    if before.contains(i) {
                        let k = choose|k: int| 0 <= k < before.len() && before[k] == i;
                        assert(before[k] < i);
                    }
                }
            }
        }
        i = i + 1;
    }
    shown
}

} // verus!
