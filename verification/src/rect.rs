//! Axis-aligned rectangles in integer world units.

use vstd::prelude::*;

verus! {

/// The value of `i32` nearest to `v`.
pub open spec fn saturate(v: int) -> int {
    if v < i32::MIN {
        i32::MIN as int
    } else if v > i32::MAX {
        i32::MAX as int
    } else {
        v
    }
}

/// The value of `i32` nearest to `v`.
pub fn saturating(v: i64) -> (s: i32)
    ensures
        s == saturate(v as int),
{
    if v < i32::MIN as i64 {
        i32::MIN
    } else if v > i32::MAX as i64 {
        i32::MAX
    } else {
        v as i32
    }
}

/// An axis-aligned rectangle: the half-open region
/// `[x, x + width) x [y, y + height)` of the world.
///
/// Every combination of fields is a rectangle; one with a zero `width` or
/// `height` covers no point.
#[derive(Clone, Copy, Debug, PartialEq, Eq, Structural)]
pub struct Rect {
    pub x: i32,
    pub y: i32,
    pub width: u32,
    pub height: u32,
}

impl Rect {
    /// The coordinate of the left edge.
    pub open spec fn left(self) -> int {
        self.x as int
    }

    /// The coordinate just past the right edge.
    pub open spec fn right(self) -> int {
        self.x + self.width
    }

    /// The coordinate of the top edge.
    pub open spec fn top(self) -> int {
        self.y as int
    }

    /// The coordinate just past the bottom edge.
    pub open spec fn bottom(self) -> int {
        self.y + self.height
    }

    /// Whether the rectangle covers no point at all.
    pub open spec fn is_empty(self) -> bool {
        self.width == 0 || self.height == 0
    }

    /// Whether the point `(px, py)` lies in the rectangle.
    pub open spec fn contains_point(self, px: int, py: int) -> bool {
        self.left() <= px < self.right() && self.top() <= py < self.bottom()
    }

    /// Whether the two rectangles have a point in common.
    pub open spec fn overlaps(self, other: Rect) -> bool {
        &&& !self.is_empty()
        &&& !other.is_empty()
        &&& self.left() < other.right()
        &&& other.left() < self.right()
        &&& self.top() < other.bottom()
        &&& other.top() < self.bottom()
    }

    /// Whether every edge of `other` lies within the edges of `self`.
    pub open spec fn encloses(self, other: Rect) -> bool {
        &&& self.left() <= other.left()
        &&& other.right() <= self.right()
        &&& self.top() <= other.top()
        &&& other.bottom() <= self.bottom()
    }

    /// A rectangle with the given corner and size.
    pub fn new(x: i32, y: i32, width: u32, height: u32) -> (r: Rect)
        ensures
            r == (Rect { x, y, width, height }),
    {
        Rect { x, y, width, height }
    }

    /// The horizontal position of the left edge.
    pub fn x(&self) -> (v: i32)
        ensures
            v == self.x,
    {
        self.x
    }

    /// The vertical position of the top edge.
    pub fn y(&self) -> (v: i32)
        ensures
            v == self.y,
    {
        self.y
    }

    /// The horizontal size.
    pub fn width(&self) -> (v: u32)
        ensures
            v == self.width,
    {
        self.width
    }

    /// The vertical size.
    pub fn height(&self) -> (v: u32)
        ensures
            v == self.height,
    {
        self.height
    }
}

} // verus!
