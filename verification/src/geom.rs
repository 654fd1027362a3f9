//! Integer pixel geometry: points, rectangles, colors, and the shapes the
//! drawing layer moves around.

use vstd::prelude::*;

verus! {

/// A point or size in integer pixel coordinates.
#[derive(Clone, Copy, Debug, PartialEq, Eq, Structural)]
pub struct Point {
    pub x: u64,
    pub y: u64,
}

/// Saturating addition on pixel coordinates.
pub open spec fn sat_add_spec(a: u64, b: u64) -> u64 {
    if a + b <= u64::MAX {
        (a + b) as u64
    } else {
        u64::MAX
    }
}

/// Saturating addition on pixel coordinates.
pub fn sat_add(a: u64, b: u64) -> (r: u64)
    ensures
        r == sat_add_spec(a, b),
{
    if a <= u64::MAX - b {
        a + b
    } else {
        u64::MAX
    }
}

impl Point {
    pub fn origin() -> (p: Point)
        ensures
            p == (Point { x: 0, y: 0 }),
    {
        Point { x: 0, y: 0 }
    }

    pub fn new(x: u64, y: u64) -> (p: Point)
        ensures
            p == (Point { x: x, y: y }),
    {
        Point { x, y }
    }

    /// Component-wise saturating addition.
    pub fn plus(&self, other: &Point) -> (p: Point)
        ensures
            p.x == sat_add_spec(self.x, other.x),
            p.y == sat_add_spec(self.y, other.y),
    {
        Point { x: sat_add(self.x, other.x), y: sat_add(self.y, other.y) }
    }
}

/// An axis-aligned rectangle, `c1` the near (top-left) corner and `c2` the
/// far (bottom-right) corner.
#[derive(Clone, Copy, Debug, PartialEq, Eq, Structural)]
pub struct Rect {
    pub c1: Point,
    pub c2: Point,
}

impl Rect {
    /// A rectangle containing a point: inclusive on the near edge,
    /// exclusive on the far edge.
    pub open spec fn contains_spec(self, p: Point) -> bool {
        self.c1.x <= p.x < self.c2.x && self.c1.y <= p.y < self.c2.y
    }

    pub fn empty() -> (r: Rect)
        ensures
            r == (Rect { c1: Point { x: 0, y: 0 }, c2: Point { x: 0, y: 0 } }),
    {
        Rect { c1: Point { x: 0, y: 0 }, c2: Point { x: 0, y: 0 } }
    }

    /// Point-in-rectangle test: near edges are inclusive, far edges exclusive.
    pub fn in_bounds(&self, p: &Point) -> (r: bool)
        ensures
            r == self.contains_spec(*p),
    {
        self.c1.x <= p.x && p.x < self.c2.x && self.c1.y <= p.y && p.y < self.c2.y
    }

    /// Width and height of the rectangle.
    pub fn size(&self) -> (s: Point)
        requires
            self.c1.x <= self.c2.x,
            self.c1.y <= self.c2.y,
        ensures
            s.x == self.c2.x - self.c1.x,
            s.y == self.c2.y - self.c1.y,
    {
        Point { x: self.c2.x - self.c1.x, y: self.c2.y - self.c1.y }
    }

    /// Move the rectangle so its near corner sits at `off`, keeping its size.
    pub fn set_offset(&mut self, off: &Point)
        requires
            old(self).c1.x <= old(self).c2.x,
            old(self).c1.y <= old(self).c2.y,
        ensures
            final(self).c1 == *off,
            final(self).c2.x == sat_add_spec(off.x, (old(self).c2.x - old(self).c1.x) as u64),
            final(self).c2.y == sat_add_spec(off.y, (old(self).c2.y - old(self).c1.y) as u64),
    {
        let w = self.c2.x - self.c1.x;
        let h = self.c2.y - self.c1.y;
        self.c1 = *off;
        self.c2 = Point { x: sat_add(off.x, w), y: sat_add(off.y, h) };
    }
}

/// An RGBA color with 8-bit channels.
#[derive(Clone, Copy, Debug, PartialEq, Eq, Structural)]
pub struct Color {
    pub r: u8,
    pub g: u8,
    pub b: u8,
    pub a: u8,
}

impl Color {
    /// An opaque color from its red, green, and blue channels.
    pub fn rgb(r: u8, g: u8, b: u8) -> (c: Color)
        ensures
            c == (Color { r: r, g: g, b: b, a: 255u8 }),
    {
        Color { r, g, b, a: 255 }
    }
}

/// A positioned rectangle given as an offset and a size, the shape text
/// boxes are laid out in.
#[derive(Clone, Copy, Debug, PartialEq, Eq, Structural)]
pub struct RotateRect {
    pub offset: Point,
    pub size: Point,
}

impl RotateRect {
    pub fn new(offset: Point, size: Point) -> (r: RotateRect)
        ensures
            r == (RotateRect { offset: offset, size: size }),
    {
        RotateRect { offset, size }
    }
}

impl Default for RotateRect {
    fn default() -> (r: Self)
        ensures
            r == (RotateRect { offset: Point { x: 0, y: 0 }, size: Point { x: 0, y: 0 } }),
    {
        RotateRect { offset: Point { x: 0, y: 0 }, size: Point { x: 0, y: 0 } }
    }
}

/// A line segment between two points.
#[derive(Clone, Copy, Debug, PartialEq, Eq, Structural)]
pub struct DrawLine {
    pub p1: Point,
    pub p2: Point,
}

/// A filled polygonal shape, reduced here to its bounding rectangle.
#[derive(Clone, Copy, Debug, PartialEq, Eq, Structural)]
pub struct DrawPolygon {
    pub rect: RotateRect,
}

/// A drawable shape: either a free line or a polygon.
#[derive(Clone, Copy, Debug, PartialEq, Eq, Structural)]
pub enum Shape {
    Line(DrawLine),
    Polygon(DrawPolygon),
}

impl Shape {
    /// Translate the shape by an offset: both endpoints of a line, or the
    /// rectangle origin of a polygon.
    pub fn drag(&mut self, off: &Point)
        ensures
            match *old(self) {
                Shape::Line(l) => *final(self) == Shape::Line(DrawLine {
                    p1: Point {
                        x: sat_add_spec(l.p1.x, off.x),
                        y: sat_add_spec(l.p1.y, off.y),
                    },
                    p2: Point {
                        x: sat_add_spec(l.p2.x, off.x),
                        y: sat_add_spec(l.p2.y, off.y),
                    },
                }),
                Shape::Polygon(p) => *final(self) == Shape::Polygon(DrawPolygon {
                    rect: RotateRect {
                        offset: Point {
                            x: sat_add_spec(p.rect.offset.x, off.x),
                            y: sat_add_spec(p.rect.offset.y, off.y),
                        },
                        size: p.rect.size,
                    },
                }),
            },
    {
        match self {
            Shape::Line(ref mut l) => {
                l.p1 = l.p1.plus(off);
                l.p2 = l.p2.plus(off);
            }
            Shape::Polygon(ref mut p) => {
                p.rect.offset = p.rect.offset.plus(off);
            }
        }
    }
}


/// A border: a stroke width per axis and a color.
#[derive(Clone, Copy, Debug, PartialEq, Eq, Structural)]
pub struct Border {
    pub width: Point,
    pub color: Color,
}

impl Border {
    pub fn new(width: Point, color: Color) -> (b: Border)
        ensures
            b == (Border { width: width, color: color }),
    {
        Border { width, color }
    }
}

/// A filled rectangle with a border around it.
#[derive(Clone, Copy, Debug, PartialEq, Eq, Structural)]
pub struct BorderRect {
    pub size: Point,
    pub fill_color: Color,
    pub border: Border,
}

impl BorderRect {
    pub fn new(size: Point, fill_color: Color, border: Border) -> (b: BorderRect)
        ensures
            b == (BorderRect { size: size, fill_color: fill_color, border: border }),
    {
        BorderRect { size, fill_color, border }
    }
}


} // verus!
