//! Slices: named regions of the canvas.

use vstd::prelude::*;

verus! {

/// The rectangle a slice covers.
#[derive(Debug, Clone, Copy, PartialEq, Eq, Structural)]
pub struct SliceBounds {
    pub x: i32,
    pub y: i32,
    pub width: u32,
    pub height: u32,
}

/// The pivot point of a slice.
#[derive(Debug, Clone, Copy, PartialEq, Eq, Structural)]
pub struct SlicePivot {
    pub x: i32,
    pub y: i32,
}

/// A named region of the canvas.
#[derive(Debug, PartialEq, Eq)]
pub struct Slice {
    pub name: String,
    pub bounds: SliceBounds,
    pub pivot: Option<SlicePivot>,
}

/// What a slice holds, as mathematical values.
#[verifier::ext_equal]
pub struct SliceView {
    pub name: Seq<char>,
    pub bounds: SliceBounds,
    pub pivot: Option<SlicePivot>,
}

impl View for Slice {
    type V = SliceView;

    open spec fn view(&self) -> SliceView {
        SliceView { name: self.name@, bounds: self.bounds, pivot: self.pivot }
    }
}

} // verus!
