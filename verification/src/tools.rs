//! The drawing and editing tools of the side bar.
use vstd::prelude::*;
use crate::color::Color;

verus! {

#[derive(Clone, Copy, Debug, PartialEq, Eq, Structural)]
pub enum Tool {
    /// Selection arrow: select and move an element.
    Select,
    /// Free selection (lasso): cuts the pixels inside a contour.
    Lasso,
    /// Direct selection: edit point by point.
    DirectSelect,
    /// Magic wand: select by colour.
    MagicWand,
    /// Pen: draw point by point.
    Pen,
    /// Text.
    Text,
    /// Geometric shapes (rectangle, ellipse, triangle, polygon).
    Shapes,
    /// Paint bucket (flood fill).
    Fill,
    /// Brush: free raster drawing.
    Pencil,
    /// Eraser: paints transparent, revealing what lies below.
    Eraser,
    /// 2D rig: create and pose skeletons of bones.
    Rig,
}

impl Tool {
    /// What `label` shows for the tool.
    pub open spec fn label_spec(self) -> Seq<char> {
        match self {
            Tool::Select => "Seleção"@,
            Tool::Lasso => "Laço"@,
            Tool::DirectSelect => "Seleção direta"@,
            Tool::MagicWand => "Varinha mágica"@,
            Tool::Pen => "Caneta"@,
            Tool::Text => "Texto"@,
            Tool::Shapes => "Formas"@,
            Tool::Fill => "Balde"@,
            Tool::Pencil => "Pincel"@,
            Tool::Eraser => "Borracha"@,
            Tool::Rig => "Rig"@,
        }
    }

    /// The colour the tool actually lays down, given the brush colour: the
    /// eraser lays down transparent, every other tool the brush colour.
    pub fn effective_color(self, brush: Color) -> (c: Color)
        ensures
            c == (if self == Tool::Eraser { Color { r: 0, g: 0, b: 0, a: 0 } } else { brush }),
    {
        match self {
            Tool::Eraser => Color::transparent(),
            _ => brush,
        }
    }

    /// True for the tools that paint freely on the canvas (brush, eraser).
    pub fn paints(self) -> (b: bool)
        ensures
            b == (self == Tool::Pencil || self == Tool::Eraser),
    {
        match self {
            Tool::Pencil | Tool::Eraser => true,
            _ => false,
        }
    }

    /// The tool's name as shown to the user.
    pub fn label(self) -> (s: &'static str)
        ensures
            s@ == self.label_spec(),
    {
        match self {
            Tool::Select => "Seleção",
            Tool::Lasso => "Laço",
            Tool::DirectSelect => "Seleção direta",
            Tool::MagicWand => "Varinha mágica",
            Tool::Pen => "Caneta",
            Tool::Text => "Texto",
            Tool::Shapes => "Formas",
            Tool::Fill => "Balde",
            Tool::Pencil => "Pincel",
            Tool::Eraser => "Borracha",
            Tool::Rig => "Rig",
        }
    }
}

} // verus!
