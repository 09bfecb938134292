//! Cels: the image of one layer in one frame.

use vstd::prelude::*;

verus! {

/// The coordinates of a cel: its layer and its frame.
#[derive(Debug, Clone, Copy, PartialEq, Eq, Structural, Hash)]
pub struct CelId {
    pub layer: usize,
    pub frame: usize,
}

/// How a cel gets its pixels.
#[derive(Debug, Clone, Copy, PartialEq, Eq, Structural)]
pub enum CelLink {
    /// The cel owns its image through `image_id`.
    Unlinked,
    /// The cel shares pixel data with another cel.
    Linked {
        source: CelId,
        /// When true, x/y follow the source cel.
        share_position: bool,
    },
}

/// The image of one layer in one frame, with its placement.
#[derive(Debug, Clone, Copy, PartialEq, Eq, Structural)]
pub struct Cel {
    pub layer: usize,
    pub frame: usize,
    pub x: i32,
    pub y: i32,
    pub opacity: u8,
    pub z_index: i16,
    pub image_id: usize,
    pub link: CelLink,
}

impl Cel {
    /// The layer and frame of this cel.
    pub fn id(&self) -> (i: CelId)
        ensures
            i == (CelId { layer: self.layer, frame: self.frame }),
    {
        CelId { layer: self.layer, frame: self.frame }
    }
}

} // verus!
