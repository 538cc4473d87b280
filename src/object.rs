use vstd::prelude::*;
use crate::tile::Grid;

verus! {

/// An RGB display colour.
#[derive(Clone, Copy, Debug, PartialEq, Eq, Structural)]
pub struct Color {
    pub r: u8,
    pub g: u8,
    pub b: u8,
}

/// An actor on the map: the player or a monster.
#[derive(Debug)]
pub struct Object {
    pub x: i32,
    pub y: i32,
    pub char: char,
    pub color: Color,
    pub name: String,
    pub blocks: bool,
    pub alive: bool,
}

/// The player-controlled actor always sits at this index of the registry.
pub const PLAYER_INDEX: usize = 0;

/// The state that movement is checked against.
pub struct Game {
    pub map: Grid,
}

/// `o` relocated to `(x, y)`, every other field kept.
pub open spec fn relocated(o: Object, x: int, y: int) -> Object {
    Object { x: x as i32, y: y as i32, ..o }
}

/// Some actor other than the one at index `mover` blocks movement into `(x, y)`.
pub open spec fn occupied_by_other(objects: Seq<Object>, mover: int, x: int, y: int) -> bool {
    exists|j: int|
        0 <= j < objects.len() && j != mover && (#[trigger] objects[j]).blocks && objects[j].x == x
            && objects[j].y == y
}

/// Moving actor `mover` into `(x, y)` is refused: the cell is off the map,
/// its tile is blocked, or another blocking actor stands there.
pub open spec fn move_refused(game: &Game, objects: Seq<Object>, mover: int, x: int, y: int) -> bool {
    !game.map.open_at(x, y) || occupied_by_other(objects, mover, x, y)
}

/// No two movement-blocking actors share a cell.
pub open spec fn blockers_apart(objects: Seq<Object>) -> bool {
    forall|i: int, j: int|
        0 <= i < objects.len() && 0 <= j < objects.len() && i != j && (#[trigger] objects[i]).blocks
            && (#[trigger] objects[j]).blocks ==> objects[i].x != objects[j].x || objects[i].y
            != objects[j].y
}

impl Object {
    /// A new actor at `(x, y)`; it starts out not alive.
    pub fn new(x: i32, y: i32, char: char, name: &str, color: Color, blocks: bool) -> (o: Object)
        ensures
            o.x == x,
            o.y == y,
            o.char == char,
            o.name@ == name@,
            o.color == color,
            o.blocks == blocks,
            !o.alive,
    {
        Object { x, y, char, color, name: name.to_owned(), blocks, alive: false }
    }

    /// Puts the actor at `(new_x, new_y)`.
    pub fn move_to(&mut self, new_x: i32, new_y: i32)
        ensures
            *final(self) == relocated(*old(self), new_x as int, new_y as int),
    {
        self.x = new_x;
        self.y = new_y;
    }

    pub fn position(&self) -> (r: (i32, i32))
        ensures
            r == (self.x, self.y),
    {
        (self.x, self.y)
    }
}

/// Whether actor `mover` may not step into `(x, y)`.
pub fn position_is_blocked(x: i32, y: i32, mover: usize, game: &Game, objects: &Vec<Object>) -> (r: bool)
    requires
        game.map.wf(),
    ensures
        r == move_refused(game, objects@, mover as int, x as int, y as int),
{
    if x < 0 || x >= game.map.width() || y < 0 || y >= game.map.height() {
        return true;
    }
    if game.map.tile_at(x, y).blocked {
        return true;
    }
    let mut i: usize = 0;
    while i < objects.len()
        invariant
            i <= objects.len(),
            forall|j: int|
                0 <= j < i && j != mover ==> !((#[trigger] objects@[j]).blocks && objects@[j].x == x
                    && objects@[j].y == y),
        decreases objects.len() - i,
    {
        let o = &objects[i];
        if i != mover && o.blocks && o.x == x && o.y == y {
            return true;
        }
        i = i + 1;
    }
    false
}

/// Tries to move actor `id` by `(dx, dy)`. The move is made, and `true`
/// returned, exactly when the target cell is on the map, not blocked, and
/// free of other blocking actors; otherwise nothing changes.
pub fn move_by(id: usize, dx: i32, dy: i32, game: &Game, objects: &mut Vec<Object>) -> (moved: bool)
    requires
        game.map.wf(),
        id < old(objects)@.len(),
        -1 <= dx <= 1,
        -1 <= dy <= 1,
    ensures
        final(objects)@.len() == old(objects)@.len(),
        ({
            let tx = old(objects)@[id as int].x + dx;
            let ty = old(objects)@[id as int].y + dy;
            &&& moved == !move_refused(game, old(objects)@, id as int, tx, ty)
            &&& moved ==> final(objects)@ == old(objects)@.update(
                id as int,
                relocated(old(objects)@[id as int], tx, ty),
            )
            &&& !moved ==> final(objects)@ == old(objects)@
        }),
        moved ==> game.map.open_at(final(objects)@[id as int].x as int, final(objects)@[id as int].y as int),
        blockers_apart(old(objects)@) ==> blockers_apart(final(objects)@),
{
    let (x, y) = objects[id].position();
    let tx: i64 = x as i64 + dx as i64;
    let ty: i64 = y as i64 + dy as i64;
    if tx < 0 || tx >= game.map.width() as i64 || ty < 0 || ty >= game.map.height() as i64 {
        return false;
    }
    if position_is_blocked(tx as i32, ty as i32, id, game, objects) {
        return false;
    }
    let ghost before = objects@;
    objects[id].move_to(tx as i32, ty as i32);
    proof {
        let after = objects@;
        if blockers_apart(before) {
            assert forall|i: int, j: int|
                0 <= i < after.len() && 0 <= j < after.len() && i != j && (#[trigger] after[i]).blocks
                    && (#[trigger] after[j]).blocks implies after[i].x != after[j].x || after[i].y
                    != after[j].y by {
                if i == id {
                    assert(before[j].blocks);
                } else if j == id {
                    assert(before[i].blocks);
                } else {
                    assert(before[i] == after[i] && before[j] == after[j]);
                }
            }
        }
    }
    true
}

} // verus!
