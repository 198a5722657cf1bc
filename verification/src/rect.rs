//! Axis-aligned rectangles, used for rooms.

use vstd::prelude::*;

verus! {

/// An axis-aligned rectangle given by two opposite corners.
#[derive(Clone, Copy, Debug, PartialEq, Eq, Structural)]
pub struct Rect {
    pub x1: i32,
    pub x2: i32,
    pub y1: i32,
    pub y2: i32,
}

/// Half of `s`, rounded toward zero.
pub open spec fn half(s: int) -> int {
    if s >= 0 {
        s / 2
    } else {
        -((-s) / 2)
    }
}

impl Rect {
    /// Two rectangles intersect when they share a point, edges included.
    pub open spec fn overlaps(self, other: Rect) -> bool {
        self.x1 <= other.x2 && self.x2 >= other.x1 && self.y1 <= other.y2 && self.y2 >= other.y1
    }

    /// The midpoint of the rectangle, each coordinate rounded toward zero.
    pub open spec fn midpoint(self) -> (int, int) {
        (half(self.x1 + self.x2), half(self.y1 + self.y2))
    }

    /// The cells that a room with this outline opens up: all of the
    /// rectangle but its left column and its top row.
    pub open spec fn interior(self, x: int, y: int) -> bool {
        self.x1 < x <= self.x2 && self.y1 < y <= self.y2
    }

    /// Whether the rectangle lies on a grid `width` wide and `height` high
    /// and is at least two cells long each way, so that its midpoint is one
    /// of its interior cells.
    pub open spec fn inside(self, width: int, height: int) -> bool {
        &&& 0 <= self.x1
        &&& self.x1 + 2 <= self.x2 < width
        &&& 0 <= self.y1
        &&& self.y1 + 2 <= self.y2 < height
    }

    /// The rectangle with corner `(x, y)`, width `w` and height `h`.
    pub fn new(x: i32, y: i32, w: i32, h: i32) -> (r: Rect)
        requires
            i32::MIN <= x + w <= i32::MAX,
            i32::MIN <= y + h <= i32::MAX,
        ensures
            r.x1 == x,
            r.y1 == y,
            r.x2 == x + w,
            r.y2 == y + h,
    {
        Rect { x1: x, y1: y, x2: x + w, y2: y + h }
    }

    /// Whether this rectangle and `other` share a point, edges included.
    pub fn intersect(&self, other: &Rect) -> (b: bool)
        ensures
            b == self.overlaps(*other),
    {
        self.x1 <= other.x2 && self.x2 >= other.x1 && self.y1 <= other.y2 && self.y2 >= other.y1
    }

    /// The midpoint of the rectangle.
    pub fn center(&self) -> (c: (i32, i32))
        ensures
            (c.0 as int, c.1 as int) == self.midpoint(),
    {
        let sx: i64 = self.x1 as i64 + self.x2 as i64;
        let sy: i64 = self.y1 as i64 + self.y2 as i64;
        ((sx / 2) as i32, (sy / 2) as i32)
    }
}

/// The midpoint of a rectangle that lies on a grid is one of its interior
/// cells.
pub proof fn lemma_midpoint_interior(r: Rect, width: int, height: int)
    requires
        r.inside(width, height),
    ensures
        r.interior(r.midpoint().0, r.midpoint().1),
        0 <= r.midpoint().0 < width,
        0 <= r.midpoint().1 < height,
{
}

} // verus!
