use vstd::prelude::*;

verus! {

/// Terrain state of one map cell.
#[derive(Clone, Copy, Debug, PartialEq, Eq, Structural)]
pub struct Tile {
    pub blocked: bool,
    pub block_sight: bool,
    pub explored: bool,
}

pub open spec fn floor_tile() -> Tile {
    Tile { blocked: false, block_sight: false, explored: false }
}

pub open spec fn wall_tile() -> Tile {
    Tile { blocked: true, block_sight: true, explored: false }
}

impl Tile {
    /// An open floor tile: walkable and transparent, not yet explored.
    pub fn empty() -> (t: Tile)
        ensures
            t == floor_tile(),
    {
        Tile { blocked: false, block_sight: false, explored: false }
    }

    /// A wall tile: blocks movement and sight, not yet explored.
    pub fn wall() -> (t: Tile)
        ensures
            t == wall_tile(),
    {
        Tile { blocked: true, block_sight: true, explored: false }
    }
}

/// A rectangular map of tiles, stored column by column: `tiles[x][y]`.
pub struct Grid {
    pub width: i32,
    pub height: i32,
    pub tiles: Vec<Vec<Tile>>,
}

impl Grid {
    /// Every column is present and has exactly `height` cells.
    pub open spec fn wf(&self) -> bool {
        &&& 0 <= self.width
        &&& 0 <= self.height
        &&& self.tiles@.len() == self.width as int
        &&& forall|x: int| 0 <= x < self.width ==> (#[trigger] self.tiles@[x])@.len() == self.height as int
    }

    pub open spec fn in_bounds(&self, x: int, y: int) -> bool {
        0 <= x < self.width && 0 <= y < self.height
    }

    pub open spec fn cell(&self, x: int, y: int) -> Tile {
        self.tiles@[x]@[y]
    }

    /// The cell can be walked on: it lies on the map and is not blocked.
    pub open spec fn open_at(&self, x: int, y: int) -> bool {
        self.in_bounds(x, y) && !self.cell(x, y).blocked
    }

    /// Two grids of the same size that differ at most in the cell `(x, y)`.
    pub open spec fn same_except(&self, other: &Grid, x: int, y: int) -> bool {
        &&& self.width == other.width
        &&& self.height == other.height
        &&& forall|a: int, b: int|
            self.in_bounds(a, b) && (a != x || b != y) ==> #[trigger] other.cell(a, b) == self.cell(a, b)
    }

    /// Every cell open in `self` is open in `other` too, and the sizes agree.
    pub open spec fn keeps_open(&self, other: &Grid) -> bool {
        &&& self.width == other.width
        &&& self.height == other.height
        &&& forall|x: int, y: int|
            #![trigger self.open_at(x, y)]
            #![trigger other.open_at(x, y)]
            self.open_at(x, y) ==> other.open_at(x, y)
    }

    /// A grid of the given size filled with walls.
    pub fn new(width: i32, height: i32) -> (g: Grid)
        requires
            0 <= width,
            0 <= height,
        ensures
            g.wf(),
            g.width == width,
            g.height == height,
            forall|x: int, y: int| g.in_bounds(x, y) ==> #[trigger] g.cell(x, y) == wall_tile(),
    {
        let mut tiles: Vec<Vec<Tile>> = Vec::new();
        let mut x: i32 = 0;
        while x < width
            invariant
                0 <= x <= width,
                0 <= height,
                tiles@.len() == x as int,
                forall|a: int| 0 <= a < x ==> (#[trigger] tiles@[a])@.len() == height as int,
                forall|a: int, b: int|
                    0 <= a < x && 0 <= b < height ==> #[trigger] tiles@[a]@[b] == wall_tile(),
            decreases width - x,
        {
            let mut column: Vec<Tile> = Vec::new();
            let mut y: i32 = 0;
            while y < height
                invariant
                    0 <= y <= height,
                    column@.len() == y as int,
                    forall|b: int| 0 <= b < y ==> #[trigger] column@[b] == wall_tile(),
                decreases height - y,
            {
                column.push(Tile::wall());
                y = y + 1;
            }
            tiles.push(column);
            x = x + 1;
        }
        Grid { width, height, tiles }
    }

    pub fn width(&self) -> (r: i32)
        ensures
            r == self.width,
    {
        self.width
    }

    pub fn height(&self) -> (r: i32)
        ensures
            r == self.height,
    {
        self.height
    }

    /// The tile at `(x, y)`, which must lie on the map.
    pub fn tile_at(&self, x: i32, y: i32) -> (t: Tile)
        requires
            self.wf(),
            self.in_bounds(x as int, y as int),
        ensures
            t == self.cell(x as int, y as int),
    {
        self.tiles[x as usize][y as usize]
    }

    /// Replaces the tile at `(x, y)`, which must lie on the map.
    pub fn set_tile(&mut self, x: i32, y: i32, tile: Tile)
        requires
            old(self).wf(),
            old(self).in_bounds(x as int, y as int),
        ensures
            final(self).wf(),
            old(self).same_except(final(self), x as int, y as int),
            final(self).cell(x as int, y as int) == tile,
    {
        self.tiles[x as usize].set(y as usize, tile);
    }
}

} // verus!
