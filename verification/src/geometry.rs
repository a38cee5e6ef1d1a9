//! Rectangles in terminal cell coordinates.

use vstd::prelude::*;

verus! {

/// The direction along which a container splits its space.
#[derive(Clone, Copy, Debug, PartialEq, Eq, Structural)]
pub enum Axis {
    /// Children stand side by side; the width is split.
    Horizontal,
    /// Children stand one above the other; the height is split.
    Vertical,
}

/// An axis-aligned rectangle, measured in whole cells.
///
/// The origin may lie off screen in any direction; the size is never
/// negative. A rectangle of zero area is valid and covers no cell.
#[derive(Clone, Copy, Debug, PartialEq, Eq, Structural)]
pub struct Rect {
    pub x: i32,
    pub y: i32,
    pub width: u32,
    pub height: u32,
}

impl Rect {
    /// The column just past the right edge.
    pub open spec fn spec_right(self) -> int {
        self.x + self.width
    }

    /// The row just past the bottom edge.
    pub open spec fn spec_bottom(self) -> int {
        self.y + self.height
    }

    /// Both far edges are representable as cell coordinates.
    pub open spec fn wf(self) -> bool {
        self.spec_right() <= i32::MAX && self.spec_bottom() <= i32::MAX
    }

    /// The cell `(x, y)` lies inside the rectangle.
    pub open spec fn spec_contains(self, x: int, y: int) -> bool {
        self.x <= x < self.spec_right() && self.y <= y < self.spec_bottom()
    }

    /// The rectangle covers no cell.
    pub open spec fn spec_is_empty(self) -> bool {
        self.width == 0 || self.height == 0
    }

    /// The size along `axis`.
    pub open spec fn spec_extent(self, axis: Axis) -> int {
        match axis {
            Axis::Horizontal => self.width as int,
            Axis::Vertical => self.height as int,
        }
    }

    /// The first coordinate along `axis`.
    pub open spec fn spec_start(self, axis: Axis) -> int {
        match axis {
            Axis::Horizontal => self.x as int,
            Axis::Vertical => self.y as int,
        }
    }

    /// The coordinate just past the last one along `axis`.
    pub open spec fn spec_end(self, axis: Axis) -> int {
        self.spec_start(axis) + self.spec_extent(axis)
    }

    /// The largest rectangle covered by both `self` and `other`; where they
    /// share no cell, an empty rectangle at the larger of the two origins.
    pub open spec fn spec_intersect(self, other: Rect) -> Rect {
        let x = if self.x >= other.x { self.x } else { other.x };
        let y = if self.y >= other.y { self.y } else { other.y };
        let right = if self.spec_right() <= other.spec_right() {
            self.spec_right()
        } else {
            other.spec_right()
        };
        let bottom = if self.spec_bottom() <= other.spec_bottom() {
            self.spec_bottom()
        } else {
            other.spec_bottom()
        };
        Rect {
            x,
            y,
            width: if right > x { (right - x) as u32 } else { 0 },
            height: if bottom > y { (bottom - y) as u32 } else { 0 },
        }
    }

    pub fn new(x: i32, y: i32, width: u32, height: u32) -> (r: Rect)
        ensures
            r == (Rect { x, y, width, height }),
    {
        Rect { x, y, width, height }
    }

    /// A rectangle of the given size at the origin.
    pub fn from_size(width: u32, height: u32) -> (r: Rect)
        ensures
            r == (Rect { x: 0, y: 0, width, height }),
    {
        Rect { x: 0, y: 0, width, height }
    }

    /// Whether both far edges are representable as cell coordinates.
    pub fn fits(self) -> (r: bool)
        ensures
            r == self.wf(),
    {
        self.x as i64 + self.width as i64 <= i32::MAX as i64 && self.y as i64 + self.height as i64
            <= i32::MAX as i64
    }

    pub fn right(self) -> (r: i64)
        ensures
            r == self.spec_right(),
    {
        self.x as i64 + self.width as i64
    }

    pub fn bottom(self) -> (r: i64)
        ensures
            r == self.spec_bottom(),
    {
        self.y as i64 + self.height as i64
    }

    #[verifier::when_used_as_spec(spec_is_empty)]
    pub fn is_empty(self) -> (r: bool)
        ensures
            r == self.spec_is_empty(),
    {
        self.width == 0 || self.height == 0
    }

    /// Whether the cell `(x, y)` lies inside the rectangle.
    pub fn contains(self, x: i64, y: i64) -> (r: bool)
        ensures
            r == self.spec_contains(x as int, y as int),
    {
        self.x as i64 <= x && x < self.right() && self.y as i64 <= y && y < self.bottom()
    }

    pub fn extent(self, axis: Axis) -> (r: u32)
        ensures
            r == self.spec_extent(axis),
    {
        match axis {
            Axis::Horizontal => self.width,
            Axis::Vertical => self.height,
        }
    }

    /// Clips `self` to `other`.
    pub fn intersect(self, other: Rect) -> (r: Rect)
        ensures
            r == self.spec_intersect(other),
            forall|x: int, y: int|
                r.spec_contains(x, y) <==> self.spec_contains(x, y) && other.spec_contains(x, y),
            self.wf() || other.wf() ==> r.wf(),
    {
        let x = if self.x >= other.x { self.x } else { other.x };
        let y = if self.y >= other.y { self.y } else { other.y };
        let right = if self.right() <= other.right() { self.right() } else { other.right() };
        let bottom = if self.bottom() <= other.bottom() { self.bottom() } else { other.bottom() };
        let width = if right > x as i64 { (right - x as i64) as u32 } else { 0 };
        let height = if bottom > y as i64 { (bottom - y as i64) as u32 } else { 0 };
        Rect { x, y, width, height }
    }
}

/// A cell lies in the intersection of two rectangles exactly when it lies in
/// both.
pub proof fn lemma_intersect(a: Rect, b: Rect)
    ensures
        forall|x: int, y: int|
            a.spec_intersect(b).spec_contains(x, y) <==> a.spec_contains(x, y) && b.spec_contains(
                x,
                y,
            ),
{
}

} // verus!
