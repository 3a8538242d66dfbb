//! Direction vector: animates an object between a start state (in one frame)
//! and an end state (in another), generating the states between them by
//! interpolation. It keeps the base geometry captured at the start and the
//! rules (frames, transforms, interpolation, pivot), so that later edits
//! recompute everything. The `f32` values are held by their bits.
use vstd::prelude::*;
use vstd::string::*;
use crate::camera::Interp;
use crate::image_object::ImageObject;
use crate::pivot::PivotTarget;
use crate::vector::VectorObject;

verus! {

/// The bits of `1.0f32`: the default scale.
pub open spec fn unit() -> u32 {
    0x3f80_0000
}

/// A direction vector (a transform path of an object or group).
pub struct DirVector {
    pub name: String,
    /// The controlled object or group (the same kind of target as pivots).
    pub target: PivotTarget,
    pub start_frame: usize,
    pub end_frame: usize,
    pub interp: Interp,
    pub enabled: bool,
    /// Centre of the object at the start and at the end (bits of `f32`).
    pub start_centroid: (u32, u32),
    pub end_centroid: (u32, u32),
    /// Rotation (radians) at the start and at the end (bits of `f32`).
    pub start_angle: u32,
    pub end_angle: u32,
    /// Scale at the start and at the end (bits of `f32`; 1.0 = unchanged).
    pub scale_start: u32,
    pub scale_end: u32,
    /// Orbit round a fixed axis?
    pub has_pivot: bool,
    /// The axis when `has_pivot` (bits of `f32`).
    pub pivot_axis: (u32, u32),
    /// The base geometry captured at the start.
    pub base_vectors: Vec<VectorObject>,
    pub base_image: Option<ImageObject>,
    pub base_image_index: usize,
    pub has_start: bool,
    pub has_end: bool,
}

impl DirVector {
    /// A direction vector with nothing set yet: no target, frames 0 to 0,
    /// linear, enabled, unit scales.
    pub fn new(name: &str) -> (d: Self)
        ensures
            d.name@ == name@,
            d.target == PivotTarget::Unset,
            d.start_frame == 0,
            d.end_frame == 0,
            d.interp == Interp::Linear,
            d.enabled,
            d.start_centroid == (0u32, 0u32),
            d.end_centroid == (0u32, 0u32),
            d.start_angle == 0,
            d.end_angle == 0,
            d.scale_start == unit(),
            d.scale_end == unit(),
            !d.has_pivot,
            d.pivot_axis == (0u32, 0u32),
            d.base_vectors@.len() == 0,
            d.base_image is None,
            d.base_image_index == 0,
            !d.has_start,
            !d.has_end,
    {
        DirVector {
            name: String::from_str(name),
            target: PivotTarget::Unset,
            start_frame: 0,
            end_frame: 0,
            interp: Interp::Linear,
            enabled: true,
            start_centroid: (0, 0),
            end_centroid: (0, 0),
            start_angle: 0,
            end_angle: 0,
            scale_start: 0x3f80_0000,
            scale_end: 0x3f80_0000,
            has_pivot: false,
            pivot_axis: (0, 0),
            base_vectors: Vec::new(),
            base_image: None,
            base_image_index: 0,
            has_start: false,
            has_end: false,
        }
    }

    /// Ready to apply: it has a start, an end and a range that is not empty.
    pub fn completo(&self) -> (b: bool)
        ensures
            b == (self.has_start && self.has_end && self.end_frame != self.start_frame),
    {
        self.has_start && self.has_end && self.end_frame != self.start_frame
    }

    /// The smaller and the larger frame of the range (the start may come
    /// after the end).
    pub fn faixa(&self) -> (r: (usize, usize))
        ensures
            r.0 == (if self.start_frame <= self.end_frame { self.start_frame } else { self.end_frame }),
            r.1 == (if self.start_frame <= self.end_frame { self.end_frame } else { self.start_frame }),
    {
        if self.start_frame <= self.end_frame {
            (self.start_frame, self.end_frame)
        } else {
            (self.end_frame, self.start_frame)
        }
    }
}

} // verus!
