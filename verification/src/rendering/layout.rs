//! Small block-layout primitives.

use vstd::prelude::*;

verus! {

/// An axis-aligned rectangle in device pixels.
#[derive(Debug, Clone)]
pub struct Rect {
    pub x: i32,
    pub y: i32,
    pub width: u32,
    pub height: u32,
}

/// Spacing around a block's content.
#[derive(Debug, Clone)]
pub struct BoxModel {
    pub margin: u32,
    pub border: u32,
    pub padding: u32,
}

/// A placed block with its box model.
#[derive(Debug, Clone)]
pub struct LayoutBox {
    pub rect: Rect,
    pub box_model: BoxModel,
}

impl LayoutBox {
    /// The width left for content once margin, border and padding are taken
    /// off, floored at zero.
    pub fn content_width(&self) -> (w: u32)
        requires
            self.box_model.margin + self.box_model.border + self.box_model.padding <= u32::MAX,
        ensures
            w == if self.rect.width >= self.box_model.margin + self.box_model.border
                + self.box_model.padding {
                self.rect.width - (self.box_model.margin + self.box_model.border
                    + self.box_model.padding)
            } else {
                0
            },
    {
        let total = self.box_model.margin + self.box_model.border + self.box_model.padding;
        if self.rect.width >= total {
            self.rect.width - total
        } else {
            0
        }
    }
}

/// The kind of element a layout node was built from.
#[derive(Debug, Clone, Copy, PartialEq, Eq, Structural)]
pub enum ElementType {
    Title,
    Paragraph,
    Other,
}

/// A layout node couples a `LayoutBox` with rendered text and element type.
#[derive(Debug, Clone)]
pub struct LayoutNode {
    pub lb: LayoutBox,
    pub text: String,
    pub elem_type: ElementType,
    pub scale: usize,
}

} // verus!
