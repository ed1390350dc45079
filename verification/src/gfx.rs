//! Geometry and color primitives: points, sizes, rectangles in pixel or cell
//! space, and 24-bit RGB colors with the channel-averaging the quantizer needs.

use vstd::prelude::*;

verus! {

/// A 24-bit RGB color.
#[derive(Clone, Copy, PartialEq, Eq, Structural, Debug)]
pub struct Color {
    pub r: u8,
    pub g: u8,
    pub b: u8,
}

/// The channel-wise average of two channel values, rounded down.
pub open spec fn avg_channel(a: u8, b: u8) -> u8 {
    (((a + b) / 2) % 256) as u8
}

/// The channel-wise average of two colors, rounded down.
pub open spec fn avg_color(a: Color, b: Color) -> Color {
    Color { r: avg_channel(a.r, b.r), g: avg_channel(a.g, b.g), b: avg_channel(a.b, b.b) }
}

impl Color {
    pub fn new(r: u8, g: u8, b: u8) -> (c: Color)
        ensures
            c == (Color { r, g, b }),
    {
        Color { r, g, b }
    }

    pub fn black() -> (c: Color)
        ensures
            c == (Color { r: 0u8, g: 0u8, b: 0u8 }),
    {
        Color { r: 0, g: 0, b: 0 }
    }

    /// Average this color with another, channel by channel.
    pub fn avg_with(self, other: Color) -> (c: Color)
        ensures
            c == avg_color(self, other),
    {
        let r: u8 = ((self.r as u16 + other.r as u16) / 2) as u8;
        let g: u8 = ((self.g as u16 + other.g as u16) / 2) as u8;
        let b: u8 = ((self.b as u16 + other.b as u16) / 2) as u8;
        Color { r, g, b }
    }
}

/// A point in pixel or cell space.
#[derive(Clone, Copy, PartialEq, Eq, Structural, Debug)]
pub struct Point<T> {
    pub x: T,
    pub y: T,
}

impl<T> Point<T> {
    pub fn new(x: T, y: T) -> (p: Point<T>)
        ensures
            p == (Point { x, y }),
    {
        Point { x, y }
    }
}

/// Grid or region dimensions, in cells or pixels.
#[derive(Clone, Copy, PartialEq, Eq, Structural, Debug)]
pub struct Size {
    pub width: u32,
    pub height: u32,
}

impl Size {
    pub fn new(width: u32, height: u32) -> (s: Size)
        ensures
            s == (Size { width, height }),
    {
        Size { width, height }
    }

    /// A square size with both dimensions equal.
    pub fn splat(v: u32) -> (s: Size)
        ensures
            s == (Size { width: v, height: v }),
    {
        Size { width: v, height: v }
    }
}

/// A rectangle: signed origin (regions may start off-screen) plus a size.
#[derive(Clone, Copy, PartialEq, Eq, Structural, Debug)]
pub struct Rect {
    pub origin: Point<i32>,
    pub size: Size,
}

impl Rect {
    pub fn new(x: i32, y: i32, width: u32, height: u32) -> (r: Rect)
        ensures
            r == (Rect { origin: Point { x, y }, size: Size { width, height } }),
    {
        Rect { origin: Point { x, y }, size: Size { width, height } }
    }
}

} // verus!
