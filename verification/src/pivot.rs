//! Pivot / transformation axis: a custom rotation point tied to an object or
//! group. It keeps two points of document space: the axis (the real centre
//! of rotation) and the handle that the user drags to turn the object round
//! the axis. The `f32` coordinates are held by their bits.
use vstd::prelude::*;
use vstd::string::*;

verus! {

/// What a pivot is tied to.
#[derive(Clone, Copy, Debug, PartialEq, Eq, Structural)]
pub enum PivotTarget {
    /// Nothing yet.
    Unset,
    /// A group of vectors, by group id (survives reordering between frames).
    Group(u32),
    /// An image object, by its index in the frame.
    Image(usize),
}

impl Default for PivotTarget {
    fn default() -> (t: Self)
        ensures
            t == PivotTarget::Unset,
    {
        PivotTarget::Unset
    }
}

/// The default of a switch that is on unless stated otherwise.
pub fn yes() -> (b: bool)
    ensures
        b,
{
    true
}

/// A named pivot: axis, handle and target.
pub struct Pivot {
    pub name: String,
    /// Pivot on/off (when off it does not transform the object).
    pub enabled: bool,
    /// The axis point, in document coordinates (bits of `f32`).
    pub axis: (u32, u32),
    /// The handle point, in document coordinates (bits of `f32`).
    pub mov: (u32, u32),
    /// The object or group it controls.
    pub target: PivotTarget,
    /// The axis has been placed (first click).
    pub has_axis: bool,
    /// The handle has been placed (second click).
    pub has_mov: bool,
}

impl Clone for Pivot {
    /// A copy of every field.
    fn clone(&self) -> (res: Self)
        ensures
            res == *self,
    {
        Pivot {
            name: self.name.clone(),
            enabled: self.enabled,
            axis: self.axis,
            mov: self.mov,
            target: self.target,
            has_axis: self.has_axis,
            has_mov: self.has_mov,
        }
    }
}

impl Pivot {
    /// A pivot not yet placed nor tied to anything.
    pub fn new(name: &str) -> (p: Self)
        ensures
            p.name@ == name@,
            p.enabled,
            p.axis == (0u32, 0u32),
            p.mov == (0u32, 0u32),
            p.target == PivotTarget::Unset,
            !p.has_axis,
            !p.has_mov,
    {
        Pivot {
            name: String::from_str(name),
            enabled: true,
            axis: (0, 0),
            mov: (0, 0),
            target: PivotTarget::Unset,
            has_axis: false,
            has_mov: false,
        }
    }

    /// Fully set up: both the axis and the handle are placed.
    pub fn completo(&self) -> (b: bool)
        ensures
            b == (self.has_axis && self.has_mov),
    {
        self.has_axis && self.has_mov
    }
}

} // verus!
