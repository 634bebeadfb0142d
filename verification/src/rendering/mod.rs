//! Rendering prototype: layout primitives, paint commands, rasterization.

use vstd::prelude::*;

pub mod layout;
pub mod paint;
pub mod raster;

verus! {

/// A rendered page image: dimensions plus encoded image bytes.
#[derive(Debug, Clone)]
pub struct Screenshot {
    pub width: u32,
    pub height: u32,
    pub png_data: Vec<u8>,
}

impl Screenshot {
    /// A screenshot of the given dimensions with no image bytes.
    pub fn empty(width: u32, height: u32) -> (s: Screenshot)
        ensures
            s.width == width,
            s.height == height,
            s.png_data@.len() == 0,
    {
        Screenshot { width, height, png_data: Vec::new() }
    }
}

} // verus!
