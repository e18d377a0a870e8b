//! Integer points, sizes and rectangles, with the offsets and the row-major
//! point order that glyph drawing uses.

use vstd::prelude::*;

verus! {

/// A point with signed coordinates; y grows downwards.
#[derive(Debug, Clone, Copy, PartialEq, Eq, PartialOrd, Ord, Hash, Default)]
pub struct Point {
    pub x: i32,
    pub y: i32,
}

/// A width and a height.
#[derive(Debug, Clone, Copy, PartialEq, Eq, PartialOrd, Ord, Hash, Default)]
pub struct Size {
    pub width: u32,
    pub height: u32,
}

/// An axis-aligned rectangle given by its top left corner and its size.
#[derive(Debug, Clone, Copy, PartialEq, Eq, PartialOrd, Ord, Hash, Default)]
pub struct Rectangle {
    pub top_left: Point,
    pub size: Size,
}

/// The result of measuring a string.
#[derive(Debug, Clone, Copy, PartialEq, Eq, Hash)]
pub struct TextMetrics {
    pub bounding_box: Rectangle,
    pub next_position: Point,
}

/// Whether `p + s` stays in range: each extent fits a non-negative `i32`
/// and each sum fits `i32`.
pub open spec fn can_add_size(p: Point, s: Size) -> bool {
    &&& s.width <= i32::MAX
    &&& s.height <= i32::MAX
    &&& p.x + s.width <= i32::MAX
    &&& p.y + s.height <= i32::MAX
}

/// Whether `p + q` stays in range.
pub open spec fn can_add_point(p: Point, q: Point) -> bool {
    &&& i32::MIN <= p.x + q.x <= i32::MAX
    &&& i32::MIN <= p.y + q.y <= i32::MAX
}

pub open spec fn spec_add_size(p: Point, s: Size) -> Point {
    Point { x: (p.x + s.width) as i32, y: (p.y + s.height) as i32 }
}

pub open spec fn spec_add_point(p: Point, q: Point) -> Point {
    Point { x: (p.x + q.x) as i32, y: (p.y + q.y) as i32 }
}

/// Number of columns of a rectangle's point range: the columns run from the
/// left edge to the left edge plus the width, both clamped to `i32`.
pub open spec fn columns(r: Rectangle) -> int {
    let w = if r.size.width > i32::MAX { i32::MAX as int } else { r.size.width as int };
    let end = if r.top_left.x + w > i32::MAX { i32::MAX as int } else { r.top_left.x + w };
    end - r.top_left.x
}

/// Number of rows of a rectangle's point range, clamped as `columns` is.
pub open spec fn rows(r: Rectangle) -> int {
    let h = if r.size.height > i32::MAX { i32::MAX as int } else { r.size.height as int };
    let end = if r.top_left.y + h > i32::MAX { i32::MAX as int } else { r.top_left.y + h };
    end - r.top_left.y
}

/// Number of points that the rectangle's point iteration yields.
pub open spec fn point_count(r: Rectangle) -> int {
    if r.size.width == 0 || r.size.height == 0 {
        0
    } else {
        columns(r) * rows(r)
    }
}

/// The `k`-th point of the rectangle in row-major order (left to right,
/// then top to bottom).
pub open spec fn point_at(r: Rectangle, k: int) -> Point {
    Point {
        x: (r.top_left.x + k % columns(r)) as i32,
        y: (r.top_left.y + k / columns(r)) as i32,
    }
}

impl Point {
    /// Creates a point from its coordinates.
    pub fn new(x: i32, y: i32) -> (p: Point)
        ensures
            p.x == x,
            p.y == y,
    {
        Point { x, y }
    }

    /// The origin.
    pub fn zero() -> (p: Point)
        ensures
            p.x == 0,
            p.y == 0,
    {
        Point { x: 0, y: 0 }
    }

    /// Offsets the point by a size: `(x + width, y + height)`.
    pub fn add_size(self, s: Size) -> (p: Point)
        requires
            can_add_size(self, s),
        ensures
            p == spec_add_size(self, s),
    {
        Point { x: self.x + s.width as i32, y: self.y + s.height as i32 }
    }

    /// `self + s` when it stays in range, else `None`.
    pub fn checked_add_size(self, s: Size) -> (r: Option<Point>)
        ensures
            r == if can_add_size(self, s) {
                Some(spec_add_size(self, s))
            } else {
                None
            },
    {
        if s.width <= 0x7fff_ffff && s.height <= 0x7fff_ffff && self.x as i64 + s.width as i64 <= 0x7fff_ffff
            && self.y as i64 + s.height as i64 <= 0x7fff_ffff {
            Some(self.add_size(s))
        } else {
            None
        }
    }

    /// `self + q` when it stays in range, else `None`.
    pub fn checked_add_point(self, q: Point) -> (r: Option<Point>)
        ensures
            r == if can_add_point(self, q) {
                Some(spec_add_point(self, q))
            } else {
                None
            },
    {
        let x: i64 = self.x as i64 + q.x as i64;
        let y: i64 = self.y as i64 + q.y as i64;
        if -0x8000_0000 <= x && x <= 0x7fff_ffff && -0x8000_0000 <= y && y <= 0x7fff_ffff {
            Some(self.add_point(q))
        } else {
            None
        }
    }

    /// Adds two points coordinate by coordinate.
    pub fn add_point(self, q: Point) -> (p: Point)
        requires
            can_add_point(self, q),
        ensures
            p == spec_add_point(self, q),
    {
        Point { x: self.x + q.x, y: self.y + q.y }
    }
}

impl Size {
    /// Creates a size from a width and a height.
    pub fn new(width: u32, height: u32) -> (s: Size)
        ensures
            s.width == width,
            s.height == height,
    {
        Size { width, height }
    }

    /// The empty size.
    pub fn zero() -> (s: Size)
        ensures
            s.width == 0,
            s.height == 0,
    {
        Size { width: 0, height: 0 }
    }
}

impl Rectangle {
    /// Creates a rectangle from its top left corner and its size.
    pub fn new(top_left: Point, size: Size) -> (r: Rectangle)
        ensures
            r.top_left == top_left,
            r.size == size,
    {
        Rectangle { top_left, size }
    }

    /// Moves the rectangle by `by`, keeping its size.
    pub fn translate(&self, by: Point) -> (r: Rectangle)
        requires
            can_add_point(self.top_left, by),
        ensures
            r.top_left == spec_add_point(self.top_left, by),
            r.size == self.size,
    {
        Rectangle { top_left: self.top_left.add_point(by), size: self.size }
    }

    /// The number of columns and rows of the rectangle's point iteration,
    /// `(0, 0)` for a zero-sized rectangle.
    pub fn grid(&self) -> (g: (u64, u64))
        ensures
            g == if self.size.width == 0 || self.size.height == 0 {
                (0u64, 0u64)
            } else {
                (columns(*self) as u64, rows(*self) as u64)
            },
            g.0 * g.1 == point_count(*self),
            g.0 <= u32::MAX,
            g.1 <= u32::MAX,
    {
        if self.size.width == 0 || self.size.height == 0 {
            return (0, 0);
        }
        let w: i64 = if self.size.width > 0x7fff_ffff { 0x7fff_ffff } else { self.size.width as i64 };
        let h: i64 = if self.size.height > 0x7fff_ffff { 0x7fff_ffff } else { self.size.height as i64 };
        let xe: i64 = if self.top_left.x as i64 + w > 0x7fff_ffff { 0x7fff_ffff } else { self.top_left.x as i64 + w };
        let ye: i64 = if self.top_left.y as i64 + h > 0x7fff_ffff { 0x7fff_ffff } else { self.top_left.y as i64 + h };
        ((xe - self.top_left.x as i64) as u64, (ye - self.top_left.y as i64) as u64)
    }
}

} // verus!
