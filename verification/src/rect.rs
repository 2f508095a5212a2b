//! Axis-aligned rectangles: the bounding boxes of the rooms a dungeon is made of.

use vstd::prelude::*;

verus! {

/// A room's bounding box, as two corners: `(x1, y1)` top-left, `(x2, y2)` bottom-right.
/// A placed room always satisfies `x1 <= x2` and `y1 <= y2`.
#[derive(Clone, Copy, Debug, PartialEq, Eq, Structural)]
pub struct Rect {
    pub x1: i32,
    pub y1: i32,
    pub x2: i32,
    pub y2: i32,
}

impl Rect {
    /// Well-formedness of a rectangle on the grid: non-negative corners in order.
    pub open spec fn wf(self) -> bool {
        0 <= self.x1 <= self.x2 && 0 <= self.y1 <= self.y2
    }

    /// The axis-aligned bounding-box intersection test, as a predicate.
    pub open spec fn spec_overlaps(self, other: Rect) -> bool {
        self.x1 <= other.x2 && self.x2 >= other.x1 && self.y1 <= other.y2 && self.y2
            >= other.y1
    }

    /// The integer midpoint of the rectangle, with flooring division.
    pub open spec fn spec_center(self) -> (int, int) {
        ((self.x1 + self.x2) / 2, (self.y1 + self.y2) / 2)
    }

    pub fn new(x: i32, y: i32, w: i32, h: i32) -> (r: Rect)
        requires
            i32::MIN <= x + w <= i32::MAX,
            i32::MIN <= y + h <= i32::MAX,
        ensures
            r == (Rect { x1: x, y1: y, x2: (x + w) as i32, y2: (y + h) as i32 }),
    {
        Rect { x1: x, y1: y, x2: x + w, y2: y + h }
    }

    /// The axis-aligned bounding-box intersection test.
    pub fn overlaps(&self, other: &Rect) -> (r: bool)
        ensures
            r == self.spec_overlaps(*other),
    {
        self.x1 <= other.x2 && self.x2 >= other.x1 && self.y1 <= other.y2 && self.y2
            >= other.y1
    }

    /// The integer midpoint, truncating towards zero; on well-formed (non-negative)
    /// rectangles this is exactly the flooring midpoint of `spec_center`.
    pub fn center(&self) -> (c: (i32, i32))
        requires
            self.wf(),
            self.x1 + self.x2 <= i32::MAX,
            self.y1 + self.y2 <= i32::MAX,
        ensures
            c.0 == self.spec_center().0,
            c.1 == self.spec_center().1,
    {
        ((self.x1 + self.x2) / 2, (self.y1 + self.y2) / 2)
    }
}

/// The overlap test is symmetric: `a` intersects `b` exactly when `b` intersects `a`.
pub proof fn lemma_overlaps_symmetric(a: Rect, b: Rect)
    ensures
        a.spec_overlaps(b) == b.spec_overlaps(a),
{
}

/// The overlap test is reflexive on well-formed rectangles.
pub proof fn lemma_overlaps_reflexive(a: Rect)
    requires
        a.x1 <= a.x2,
        a.y1 <= a.y2,
    ensures
        a.spec_overlaps(a),
{
}

} // verus!
