use vstd::prelude::*;
use crate::point::Point;

verus! {

/// A line segment between two integer points in screen space.
#[derive(Clone, Copy, Debug, PartialEq, Eq, Structural)]
pub struct Line {
    pub x0: i64,
    pub y0: i64,
    pub x1: i64,
    pub y1: i64,
}

impl Line {
    /// The segment from the origin to (x, y).
    pub fn origin_to(x: i64, y: i64) -> (l: Line)
        ensures
            l == (Line { x0: 0, y0: 0, x1: x, y1: y }),
    {
        Line { x0: 0, y0: 0, x1: x, y1: y }
    }

    /// The segment from `p0` to `p1`.
    pub fn from_to(p0: Point, p1: Point) -> (l: Line)
        ensures
            l == (Line { x0: p0.x, y0: p0.y, x1: p1.x, y1: p1.y }),
    {
        Line { x0: p0.x, y0: p0.y, x1: p1.x, y1: p1.y }
    }

    /// The segment from (x0, y0) to (x1, y1).
    pub fn xyxy(x0: i64, y0: i64, x1: i64, y1: i64) -> (l: Line)
        ensures
            l == (Line { x0, y0, x1, y1 }),
    {
        Line { x0, y0, x1, y1 }
    }

    /// The same segment with its endpoints exchanged.
    pub fn reversed(self) -> (l: Line)
        ensures
            l == (Line { x0: self.x1, y0: self.y1, x1: self.x0, y1: self.y0 }),
    {
        Line::xyxy(self.x1, self.y1, self.x0, self.y0)
    }

    pub fn startpoint(self) -> (p: Point)
        ensures
            p == (Point { x: self.x0, y: self.y0 }),
    {
        Point::xy(self.x0, self.y0)
    }

    pub fn endpoint(self) -> (p: Point)
        ensures
            p == (Point { x: self.x1, y: self.y1 }),
    {
        Point::xy(self.x1, self.y1)
    }

    /// The signed horizontal extent of the segment.
    pub fn dx(self) -> (d: i64)
        requires
            i64::MIN <= self.x1 - self.x0 <= i64::MAX,
        ensures
            d == self.x1 - self.x0,
    {
        self.x1 - self.x0
    }

    /// The signed vertical extent of the segment.
    pub fn dy(self) -> (d: i64)
        requires
            i64::MIN <= self.y1 - self.y0 <= i64::MAX,
        ensures
            d == self.y1 - self.y0,
    {
        self.y1 - self.y0
    }
}

} // verus!
