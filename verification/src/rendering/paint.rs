//! Paint commands produced by the layout stage.

use vstd::prelude::*;

verus! {

/// A drawing instruction for the rasterizer.
#[derive(Debug)]
pub enum PaintCommand {
    SolidRect { x: i32, y: i32, width: u32, height: u32, rgba: (u8, u8, u8, u8) },
    Text { x: i32, y: i32, text: String },
}

} // verus!
