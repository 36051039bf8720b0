use vstd::prelude::*;

verus! {

/// An axis-aligned rectangle given by two corners, `x1 <= x2` and `y1 <= y2`.
/// A room carves the cells strictly right of `x1` up to `x2` inclusive (and
/// likewise in `y`), so its border row and column stay wall.
#[derive(Clone, Copy, Debug, PartialEq, Eq, Structural)]
pub struct Rect {
    pub x1: i32,
    pub y1: i32,
    pub x2: i32,
    pub y2: i32,
}

impl Rect {
    pub open spec fn wf(&self) -> bool {
        self.x1 <= self.x2 && self.y1 <= self.y2
    }

    /// Inclusive-border overlap: two rectangles that share even a border
    /// line intersect, which keeps a wall of at least one cell between the
    /// carved interiors of non-intersecting rooms.
    pub open spec fn spec_intersect(&self, other: &Rect) -> bool {
        self.x1 <= other.x2 && self.x2 >= other.x1 && self.y1 <= other.y2 && self.y2 >= other.y1
    }

    pub open spec fn spec_center(&self) -> (int, int) {
        ((self.x1 + self.x2) / 2, (self.y1 + self.y2) / 2)
    }

    /// Whether the cell `(x, y)` is one that the room carves.
    pub open spec fn interior_contains(&self, x: int, y: int) -> bool {
        self.x1 < x <= self.x2 && self.y1 < y <= self.y2
    }

    /// A rectangle with its corner at `(x, y)`, `w` wide and `h` high.
    pub fn new(x: i32, y: i32, w: i32, h: i32) -> (r: Rect)
        requires
            w >= 0,
            h >= 0,
            x + w <= i32::MAX,
            y + h <= i32::MAX,
        ensures
            r.wf(),
            r == (Rect { x1: x, y1: y, x2: (x + w) as i32, y2: (y + h) as i32 }),
    {
        Rect { x1: x, y1: y, x2: x + w, y2: y + h }
    }

    pub fn intersect(&self, other: &Rect) -> (r: bool)
        ensures
            r == self.spec_intersect(other),
    {
        self.x1 <= other.x2 && self.x2 >= other.x1 && self.y1 <= other.y2 && self.y2 >= other.y1
    }

    /// The middle cell, rounding down.
    pub fn center(&self) -> (r: (i32, i32))
        requires
            self.wf(),
        ensures
            r.0 == self.spec_center().0,
            r.1 == self.spec_center().1,
            self.x1 <= r.0 <= self.x2,
            self.y1 <= r.1 <= self.y2,
    {
        let cx = (self.x1 as i64 + (self.x2 as i64 - self.x1 as i64) / 2) as i32;
        let cy = (self.y1 as i64 + (self.y2 as i64 - self.y1 as i64) / 2) as i32;
        (cx, cy)
    }
}

} // verus!
