//! A pixel buffer of known dimensions, initialized to black, row-major.

use vstd::prelude::*;
use crate::pixel::Rgb;

verus! {

#[derive(Clone, Debug)]
pub struct Viewport {
    pub height: usize,
    pub width: usize,
    pub pixels: Vec<Rgb>,
}

impl Viewport {
    pub fn new(h: usize, w: usize) -> (r: Viewport)
        requires
            h * w <= usize::MAX,
        ensures
            r.height == h,
            r.width == w,
            r.pixels@.len() == h * w,
            forall|i: int|
                0 <= i < r.pixels@.len() ==> r.pixels@[i] == (Rgb { r: 0, g: 0, b: 0 }),
    {
        let mut pixels: Vec<Rgb> = Vec::new();
        let mut y: usize = 0;
        while y < h
            invariant
                y <= h,
                h * w <= usize::MAX,
                pixels@.len() == y * w,
                forall|i: int|
                    0 <= i < pixels@.len() ==> pixels@[i] == (Rgb { r: 0, g: 0, b: 0 }),
            decreases h - y,
        {
            let mut i: usize = 0;
            proof {
                assert((y + 1) * w == y * w + w) by (nonlinear_arith);
                assert((y + 1) * w <= h * w) by (nonlinear_arith)
                    requires
                        y + 1 <= h,
                        w >= 0,
                ;
            }
            while i < w
                invariant
                    i <= w,
                    y * w + w <= usize::MAX,
                    pixels@.len() == y * w + i,
                    forall|j: int|
                        0 <= j < pixels@.len() ==> pixels@[j] == (Rgb { r: 0, g: 0, b: 0 }),
                decreases w - i,
            {
                pixels.push(Rgb { r: 0, g: 0, b: 0 });
                i = i + 1;
            }
            y = y + 1;
            proof {
                assert(y * w == (y - 1) * w + w) by (nonlinear_arith);
            }
        }
        proof {
            assert(y == h);
        }
        Viewport { height: h, width: w, pixels }
    }
}

} // verus!
