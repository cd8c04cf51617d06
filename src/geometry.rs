//! Points, sizes and rectangles on the screen plane.

use vstd::prelude::*;

verus! {

/// A point on the screen plane.
#[derive(Clone, Copy, Debug, PartialEq, Eq, Structural)]
pub struct Point {
    pub x: i32,
    pub y: i32,
}

/// A width and a height.
#[derive(Clone, Copy, Debug, PartialEq, Eq, Structural)]
pub struct Size {
    pub w: u32,
    pub h: u32,
}

/// An axis-aligned rectangle: its top-left corner and its size.
#[derive(Clone, Copy, Debug, PartialEq, Eq, Structural)]
pub struct Geometry {
    pub origin: Point,
    pub size: Size,
}

/// `v` held to the range of `i32`.
pub open spec fn clamp_i32(v: int) -> int {
    if v < i32::MIN {
        i32::MIN as int
    } else if v > i32::MAX {
        i32::MAX as int
    } else {
        v
    }
}

/// `v` held to the range of `u32`.
pub open spec fn clamp_u32(v: int) -> int {
    if v < 0 {
        0
    } else if v > u32::MAX {
        u32::MAX as int
    } else {
        v
    }
}

/// Whether `p` lies in `g`, edges included.
pub open spec fn spec_contains_point(g: Geometry, p: Point) -> bool {
    &&& g.origin.x <= p.x <= g.origin.x + g.size.w
    &&& g.origin.y <= p.y <= g.origin.y + g.size.h
}

/// Whether the interiors of two rectangles meet.
pub open spec fn spec_overlaps(a: Geometry, b: Geometry) -> bool {
    &&& a.origin.x < b.origin.x + b.size.w
    &&& b.origin.x < a.origin.x + a.size.w
    &&& a.origin.y < b.origin.y + b.size.h
    &&& b.origin.y < a.origin.y + a.size.h
}

/// `v` held to the range of `i32`.
pub fn saturate_i32(v: i64) -> (r: i32)
    ensures
        r == clamp_i32(v as int),
{
    if v < i32::MIN as i64 {
        i32::MIN
    } else if v > i32::MAX as i64 {
        i32::MAX
    } else {
        v as i32
    }
}

/// `v` held to `u32`.
pub fn saturate_u32(v: i64) -> (r: u32)
    ensures
        r == clamp_u32(v as int),
{
    if v < 0 {
        0
    } else if v > u32::MAX as i64 {
        u32::MAX
    } else {
        v as u32
    }
}

impl Point {
    pub fn new(x: i32, y: i32) -> (r: Point)
        ensures
            r == (Point { x, y }),
    {
        Point { x, y }
    }

    pub fn origin() -> (r: Point)
        ensures
            r == (Point { x: 0, y: 0 }),
    {
        Point { x: 0, y: 0 }
    }
}

impl Size {
    pub fn new(w: u32, h: u32) -> (r: Size)
        ensures
            r == (Size { w, h }),
    {
        Size { w, h }
    }

    pub fn zero() -> (r: Size)
        ensures
            r == (Size { w: 0, h: 0 }),
    {
        Size { w: 0, h: 0 }
    }
}

impl Geometry {
    pub fn new(origin: Point, size: Size) -> (r: Geometry)
        ensures
            r == (Geometry { origin, size }),
    {
        Geometry { origin, size }
    }

    pub fn zero() -> (r: Geometry)
        ensures
            r == (Geometry { origin: Point { x: 0, y: 0 }, size: Size { w: 0, h: 0 } }),
    {
        Geometry { origin: Point::origin(), size: Size::zero() }
    }

    pub fn contains_point(&self, point: Point) -> (r: bool)
        ensures
            r == spec_contains_point(*self, point),
    {
        let x = self.origin.x as i64;
        let y = self.origin.y as i64;
        x <= point.x as i64 && point.x as i64 <= x + self.size.w as i64 && y <= point.y as i64
            && point.y as i64 <= y + self.size.h as i64
    }

    pub fn overlaps_geometry(&self, other: Geometry) -> (r: bool)
        ensures
            r == spec_overlaps(*self, other),
    {
        let (ax, ay) = (self.origin.x as i64, self.origin.y as i64);
        let (bx, by) = (other.origin.x as i64, other.origin.y as i64);
        ax < bx + other.size.w as i64 && bx < ax + self.size.w as i64 && ay < by
            + other.size.h as i64 && by < ay + self.size.h as i64
    }
}

} // verus!
