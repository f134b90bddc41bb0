use vstd::prelude::*;

verus! {

/// An axis-aligned room outline. The carved interior of the room is
/// `x1 + 1 ..= x2` by `y1 + 1 ..= y2`; the low edges hold the room's wall ring.
#[derive(Clone, Copy, Debug, PartialEq, Eq, Structural)]
pub struct Rect {
    pub x1: i32,
    pub y1: i32,
    pub x2: i32,
    pub y2: i32,
}

impl Rect {
    /// A rectangle with non-negative coordinates and positive extent on both axes.
    pub open spec fn wf(self) -> bool {
        &&& 0 <= self.x1 < self.x2
        &&& 0 <= self.y1 < self.y2
    }

    /// The closed rectangles of `self` and `other` share at least one tile.
    pub open spec fn overlaps(self, other: Rect) -> bool {
        &&& self.x1 <= other.x2
        &&& self.x2 >= other.x1
        &&& self.y1 <= other.y2
        &&& self.y2 >= other.y1
    }

    /// Whether `(x, y)` lies in the carved interior of the room.
    pub open spec fn in_interior(self, x: int, y: int) -> bool {
        &&& self.x1 < x <= self.x2
        &&& self.y1 < y <= self.y2
    }

    pub open spec fn center_x(self) -> int {
        (self.x1 + self.x2) / 2
    }

    pub open spec fn center_y(self) -> int {
        (self.y1 + self.y2) / 2
    }

    /// The room whose top-left corner is `(x, y)` and whose extent is `w` by `h`.
    pub fn new(x: i32, y: i32, w: i32, h: i32) -> (r: Rect)
        requires
            i32::MIN <= x + w <= i32::MAX,
            i32::MIN <= y + h <= i32::MAX,
        ensures
            r == (Rect { x1: x, y1: y, x2: (x + w) as i32, y2: (y + h) as i32 }),
    {
        Rect { x1: x, y1: y, x2: x + w, y2: y + h }
    }

    /// True iff the closed rectangles share a tile.
    pub fn intersect(&self, other: &Rect) -> (r: bool)
        ensures
            r == self.overlaps(*other),
    {
        self.x1 <= other.x2 && self.x2 >= other.x1 && self.y1 <= other.y2 && self.y2 >= other.y1
    }

    /// The middle tile of the rectangle, rounding towards the low corner.
    pub fn center(&self) -> (r: (i32, i32))
        requires
            self.wf(),
        ensures
            r.0 == self.center_x(),
            r.1 == self.center_y(),
    {
        let cx: i64 = (self.x1 as i64 + self.x2 as i64) / 2;
        let cy: i64 = (self.y1 as i64 + self.y2 as i64) / 2;
        (cx as i32, cy as i32)
    }
}

/// A room at least two tiles wide and tall has its center inside its carved interior.
pub proof fn lemma_center_in_interior(r: Rect)
    requires
        r.wf(),
        r.x2 - r.x1 >= 2,
        r.y2 - r.y1 >= 2,
    ensures
        r.in_interior(r.center_x(), r.center_y()),
{
}

} // verus!
