//! The vertex record: a quantized position and an RGBA color.

use vstd::prelude::*;

verus! {

/// An RGBA color with four 8-bit channels. The alpha channel is straight
/// (non-premultiplied); a color parsed without an explicit alpha is fully
/// opaque.
#[derive(Clone, Copy, Debug, PartialEq, Eq, Structural)]
pub struct Rgba {
    pub r: u8,
    pub g: u8,
    pub b: u8,
    pub a: u8,
}

/// Opaque white, the default color of a point that carries none.
pub open spec fn opaque_white() -> Rgba {
    Rgba { r: 255, g: 255, b: 255, a: 255 }
}

impl Rgba {
    /// A fully opaque color from its three channels.
    pub fn from_rgb(r: u8, g: u8, b: u8) -> (c: Rgba)
        ensures
            c == (Rgba { r, g, b, a: 255 }),
    {
        Rgba { r, g, b, a: 255 }
    }

    /// Opaque white.
    pub fn white() -> (c: Rgba)
        ensures
            c == opaque_white(),
    {
        Rgba { r: 255, g: 255, b: 255, a: 255 }
    }
}

/// One point of the cloud: a position quantized to milli-units
/// (see `quant`) and a color.
#[derive(Clone, Copy, Debug, PartialEq, Eq, Structural)]
pub struct Point {
    pub x: i32,
    pub y: i32,
    pub z: i32,
    pub color: Rgba,
}

impl Point {
    pub fn new(x: i32, y: i32, z: i32, color: Rgba) -> (p: Point)
        ensures
            p == (Point { x, y, z, color }),
    {
        Point { x, y, z, color }
    }
}

} // verus!
