//! Output pixels: an 8-bit RGB triple, and a pixel with an image-plane
//! position and an optional color.

use vstd::prelude::*;
use crate::vector::{Vector, V3};

verus! {

#[derive(Clone, Copy, Debug, PartialEq, Eq, Structural)]
pub struct Rgb {
    pub r: u8,
    pub g: u8,
    pub b: u8,
}

#[derive(Clone, Debug)]
pub struct Pixel {
    pub pos: Vector,
    pub color: Option<Rgb>,
}

impl Pixel {
    pub fn new(x: i64, y: i64) -> (r: Pixel)
        ensures
            r.pos@ == (V3 { x: x as int, y: y as int, z: 0 }),
            r.color is None,
    {
        Pixel { pos: Vector::new(x, y, 0), color: None }
    }
}

} // verus!
