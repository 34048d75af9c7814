//! A small ray tracer over fixed-point arithmetic.
//!
//! Geometry and colors are carried as signed 16.16 fixed-point values: an
//! `i64` holding `v` stands for the real number `v / 65536`. All arithmetic
//! is exact integer arithmetic with truncation toward zero, so every
//! function's result is pinned down by a specification function.

pub mod fixed;
pub mod vector;
pub mod ray;
pub mod pixel;
pub mod utils;
pub mod material;
pub mod materials;
pub mod sphere;
pub mod camera;
pub mod scene;
pub mod viewport;

use vstd::prelude::*;

verus! {

/// The fixed-point unit: 1.0 is represented as 65536 (16 fractional bits).
pub const FX_ONE: i64 = 65536;

/// Output image width in pixels.
pub const VIEWPORT_WIDTH: i32 = 1600;

/// Output image height in pixels (16:9 aspect ratio).
pub const VIEWPORT_HEIGHT: i32 = 900;

/// Number of stochastic samples averaged per pixel.
pub const ANTIALIAS_SAMPLES: i32 = 300;

/// Hard cutoff for the recursive color model.
pub const REFLECTION_DEPTH: i32 = 100;

/// Sky gradient color at the top of the frame (0.5, 0.7, 1.0), red channel.
pub const BACKGROUND_R: i64 = 32768;

/// Sky gradient color, green channel.
pub const BACKGROUND_G: i64 = 45875;

/// Sky gradient color, blue channel.
pub const BACKGROUND_B: i64 = 65536;

} // verus!
