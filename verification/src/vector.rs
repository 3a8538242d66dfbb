//! The vector model: selectable objects made of anchor points, drawn over
//! the raster layers. Coordinates and widths are `f32` values held here by
//! their bits; the geometry on them is done where floating point is at hand.
use vstd::prelude::*;
use crate::color::Color;

verus! {

/// An anchor of a path. `hin`/`hout` are the Bézier handles, relative to the
/// point (`None` = sharp corner). Each value is the bits of an `f32`.
#[derive(Clone, Copy, Debug)]
pub struct Anchor {
    pub x: u32,
    pub y: u32,
    pub hin: Option<(u32, u32)>,
    pub hout: Option<(u32, u32)>,
}

impl Anchor {
    /// A sharp corner at (x, y).
    pub fn new(x: u32, y: u32) -> (a: Self)
        ensures
            a == (Anchor { x, y, hin: None, hout: None }),
    {
        Anchor { x, y, hin: None, hout: None }
    }
}

/// A vector object: a path (list of anchors) and its stroke.
pub struct VectorObject {
    pub points: Vec<Anchor>,
    pub closed: bool,
    pub stroke: Color,
    /// Bits of the `f32` stroke width.
    pub stroke_width: u32,
    /// Bits of the `f32` opacity.
    pub opacity: u32,
}

pub struct VectorObjectView {
    pub points: Seq<Anchor>,
    pub closed: bool,
    pub stroke: Color,
    pub stroke_width: u32,
    pub opacity: u32,
}

impl View for VectorObject {
    type V = VectorObjectView;

    open spec fn view(&self) -> VectorObjectView {
        VectorObjectView {
            points: self.points@,
            closed: self.closed,
            stroke: self.stroke,
            stroke_width: self.stroke_width,
            opacity: self.opacity,
        }
    }
}

impl Clone for VectorObject {
    fn clone(&self) -> (res: Self)
        ensures
            res@ == self@,
    {
        let points = self.points.clone();
        assert(points@ =~= self.points@);
        VectorObject {
            points,
            closed: self.closed,
            stroke: self.stroke,
            stroke_width: self.stroke_width,
            opacity: self.opacity,
        }
    }
}

impl VectorObject {
    /// An empty open path with the given stroke, fully opaque.
    pub fn new(stroke: Color, stroke_width: u32) -> (v: Self)
        ensures
            v@ == (VectorObjectView {
                points: Seq::empty(),
                closed: false,
                stroke,
                stroke_width,
                opacity: 0x3f80_0000,
            }),
    {
        let v = VectorObject { points: Vec::new(), closed: false, stroke, stroke_width, opacity: 0x3f80_0000 };
        assert(v@.points =~= Seq::<Anchor>::empty());
        v
    }
}

} // verus!
