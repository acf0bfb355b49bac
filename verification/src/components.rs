//! Plain geometry shared by every drawing component: pixel positions,
//! extents, and rectangles, together with the vocabulary a render target
//! offers for placing a rectangle.

mod canvas;

pub use canvas::Canvas;

use vstd::prelude::*;

verus! {

/// A position on the window's pixel grid.
#[derive(Clone, Copy, Debug, PartialEq, Eq, Structural)]
pub struct Point {
    pub x: i32,
    pub y: i32,
}

/// An extent in pixels.
#[derive(Clone, Copy, Debug, PartialEq, Eq, Structural)]
pub struct Size {
    pub w: u32,
    pub h: u32,
}

/// An axis-aligned rectangle: a corner position and an extent.
#[derive(Clone, Copy, Debug, PartialEq, Eq, Structural)]
pub struct Rect {
    pub pos: Point,
    pub size: Size,
}

impl Point {
    /// The point moved by `other`, coordinate by coordinate.
    pub fn translate(self, other: Point) -> (r: Point)
        requires
            i32::MIN <= self.x + other.x <= i32::MAX,
            i32::MIN <= self.y + other.y <= i32::MAX,
        ensures
            r == (Point { x: (self.x + other.x) as i32, y: (self.y + other.y) as i32 }),
    {
        Point { x: self.x + other.x, y: self.y + other.y }
    }
}

impl Rect {
    /// The point `(p.x, p.y)` lies within the rectangle, borders included.
    pub open spec fn contains_point(self, p: Point) -> bool {
        &&& self.pos.x <= p.x <= self.pos.x + self.size.w
        &&& self.pos.y <= p.y <= self.pos.y + self.size.h
    }

    /// A rectangle from its corner coordinates and extent.
    pub fn new(x: i32, y: i32, w: u32, h: u32) -> (r: Self)
        ensures
            r == (Rect { pos: Point { x, y }, size: Size { w, h } }),
    {
        Self { pos: Point { x, y }, size: Size { w, h } }
    }

    /// Whether `point` lies within the rectangle, borders included.
    pub fn inside(&self, point: Point) -> (r: bool)
        ensures
            r == self.contains_point(point),
    {
        let x_ok = self.pos.x <= point.x && (point.x as i64) <= (self.pos.x as i64) + (
        self.size.w as i64);
        let y_ok = self.pos.y <= point.y && (point.y as i64) <= (self.pos.y as i64) + (
        self.size.h as i64);
        x_ok && y_ok
    }

    /// The rectangle moved by `by`, its extent unchanged.
    pub fn translate(self, by: Point) -> (r: Rect)
        requires
            i32::MIN <= self.pos.x + by.x <= i32::MAX,
            i32::MIN <= self.pos.y + by.y <= i32::MAX,
        ensures
            r == (Rect { pos: (Point { x: (self.pos.x + by.x) as i32, y: (self.pos.y + by.y) as i32 }), size: self.size }),
    {
        Rect { pos: self.pos.translate(by), size: self.size }
    }
}

/// How a render target takes a rectangle: as the viewport to draw into, or
/// as the clip bound on what may be touched. The host implements this for
/// its rendering passes; the library only fixes the vocabulary.
pub trait RectViewportClipSpace {
    fn set_viewport_rect(&mut self, r: Rect);

    fn set_clipspace_rect(&mut self, r: Option<Rect>);
}

} // verus!
