//! Raster painting primitives, checked coverage masks and a baseline JPEG reader,
//! written so that their behaviour is stated and proved.

pub mod brush;
pub mod canvas;
pub mod color;
pub mod composite;
pub mod draw;
pub mod error;
pub mod fill;
pub mod filter;
pub mod img;
pub mod layer;
pub mod mask;
pub mod math;
pub mod paint;
pub mod raster;
pub mod pen;
pub mod rnd;
pub mod spline;
pub mod style;
pub mod utils;

use vstd::prelude::*;

verus! {

/// Placeholder entry point kept from the engine's public surface; it does nothing.
pub fn test()
    ensures
        true,
{
}

} // verus!
