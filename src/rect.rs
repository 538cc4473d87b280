use vstd::prelude::*;

verus! {

/// Axis-aligned room footprint. The corners are the room's walls; the cells
/// strictly between them are its floor.
#[derive(Clone, Copy, Debug, PartialEq, Eq, Structural)]
pub struct Rect {
    pub x1: i32,
    pub y1: i32,
    pub x2: i32,
    pub y2: i32,
}

/// Integer halving that rounds toward zero, as `/` on machine integers does.
pub open spec fn half_toward_zero(a: int) -> int {
    if a >= 0 {
        a / 2
    } else {
        -((-a) / 2)
    }
}

impl Rect {
    pub open spec fn wf(&self) -> bool {
        self.x1 < self.x2 && self.y1 < self.y2
    }

    pub open spec fn center_x(&self) -> int {
        half_toward_zero(self.x1 + self.x2)
    }

    pub open spec fn center_y(&self) -> int {
        half_toward_zero(self.y1 + self.y2)
    }

    /// Closed-interval overlap on both axes: rooms that share a border count
    /// as overlapping.
    pub open spec fn overlaps(&self, other: &Rect) -> bool {
        &&& self.x1 <= other.x2
        &&& self.x2 >= other.x1
        &&& self.y1 <= other.y2
        &&& self.y2 >= other.y1
    }

    /// The cell lies strictly inside the walls.
    pub open spec fn interior_contains(&self, x: int, y: int) -> bool {
        self.x1 < x < self.x2 && self.y1 < y < self.y2
    }

    /// The rectangle with top-left corner `(x, y)`, `w` wide and `h` high.
    pub fn new(x: i32, y: i32, w: i32, h: i32) -> (r: Rect)
        requires
            w > 0,
            h > 0,
            x + w <= i32::MAX,
            y + h <= i32::MAX,
        ensures
            r == (Rect { x1: x, y1: y, x2: (x + w) as i32, y2: (y + h) as i32 }),
            r.wf(),
    {
        Rect { x1: x, y1: y, x2: x + w, y2: y + h }
    }

    /// The midpoint of the rectangle, each coordinate rounded toward zero.
    pub fn center(&self) -> (r: (i32, i32))
        ensures
            r.0 == self.center_x(),
            r.1 == self.center_y(),
    {
        (halve(self.x1, self.x2), halve(self.y1, self.y2))
    }

    /// Whether the two rectangles overlap or touch.
    pub fn intersects_with_rect(&self, other: &Rect) -> (r: bool)
        ensures
            r == self.overlaps(other),
    {
        (self.x1 <= other.x2) && (self.x2 >= other.x1) && (self.y1 <= other.y2) && (self.y2
            >= other.y1)
    }
}

fn halve(a: i32, b: i32) -> (r: i32)
    ensures
        r == half_toward_zero(a + b),
{
    let s: i64 = a as i64 + b as i64;
    let h: i64 = if s >= 0 {
        s / 2
    } else {
        -((-s) / 2)
    };
    h as i32
}

/// The center of a well-formed rectangle with non-negative corners lies on or
/// inside its walls, and strictly inside them when the rectangle is at least
/// two cells across.
pub proof fn lemma_center_inside(r: Rect)
    requires
        r.wf(),
        0 <= r.x1,
        0 <= r.y1,
    ensures
        r.x1 <= r.center_x() < r.x2,
        r.y1 <= r.center_y() < r.y2,
        r.x2 - r.x1 >= 2 ==> r.x1 < r.center_x(),
        r.y2 - r.y1 >= 2 ==> r.y1 < r.center_y(),
{
}

} // verus!
