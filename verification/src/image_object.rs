//! Image object: a raster image placed over the canvas as an element —
//! movable, scalable and rotatable — that is not merged into the pixels
//! unless the user asks. It keeps its own source pixels (`ow` × `oh`) and a
//! transform (centre, half sizes, angle, opacity), whose `f32` values are
//! held here by their bits.
use vstd::prelude::*;

verus! {

pub struct ImageObject {
    /// Source pixels in RGBA8 (ow * oh * 4 bytes).
    pub pixels: Vec<u8>,
    /// Width and height of the source image.
    pub ow: u32,
    pub oh: u32,
    /// Centre in document space (bits of `f32`).
    pub cx: u32,
    pub cy: u32,
    /// Half width and half height on screen (bits of `f32`).
    pub hw: u32,
    pub hh: u32,
    /// Rotation in radians (bits of `f32`).
    pub angle: u32,
    /// Opacity 0.0–1.0 (bits of `f32`).
    pub opacity: u32,
    /// The layer the object belongs to (z-order and merging).
    pub layer: usize,
}

pub struct ImageObjectView {
    pub pixels: Seq<u8>,
    pub ow: u32,
    pub oh: u32,
    pub cx: u32,
    pub cy: u32,
    pub hw: u32,
    pub hh: u32,
    pub angle: u32,
    pub opacity: u32,
    pub layer: usize,
}

impl View for ImageObject {
    type V = ImageObjectView;

    open spec fn view(&self) -> ImageObjectView {
        ImageObjectView {
            pixels: self.pixels@,
            ow: self.ow,
            oh: self.oh,
            cx: self.cx,
            cy: self.cy,
            hw: self.hw,
            hh: self.hh,
            angle: self.angle,
            opacity: self.opacity,
            layer: self.layer,
        }
    }
}

impl Clone for ImageObject {
    fn clone(&self) -> (res: Self)
        ensures
            res@ == self@,
    {
        let pixels = self.pixels.clone();
        assert(pixels@ =~= self.pixels@);
        ImageObject {
            pixels,
            ow: self.ow,
            oh: self.oh,
            cx: self.cx,
            cy: self.cy,
            hw: self.hw,
            hh: self.hh,
            angle: self.angle,
            opacity: self.opacity,
            layer: self.layer,
        }
    }
}

impl ImageObject {
    /// An image object already placed.
    pub fn new(
        pixels: Vec<u8>,
        ow: u32,
        oh: u32,
        cx: u32,
        cy: u32,
        hw: u32,
        hh: u32,
        angle: u32,
        opacity: u32,
        layer: usize,
    ) -> (o: Self)
        ensures
            o@ == (ImageObjectView { pixels: pixels@, ow, oh, cx, cy, hw, hh, angle, opacity, layer }),
    {
        ImageObject { pixels, ow, oh, cx, cy, hw, hh, angle, opacity, layer }
    }
}

} // verus!
