//! The sprite document: frames, layers, images, cels, tags, slices and tilesets.

use vstd::prelude::*;

use super::cel::{Cel, CelLink};
use super::layer::{Layer, LayerView};
use super::model::{blank_doc, find_cel, find_cel_from, lemma_find_cel, lemma_resolved_image_id, resolvable, resolve_within, resolved_image_id, resolved_pixels_of};
use super::pixels::{ColorMode, ColorProfile, Palette, PixelGrid, PixelGridView, Rgba, grid_fits};
use super::slice::{Slice, SliceView};
use super::tileset::{TilesetRef, TilesetRefView};

verus! {

/// One animation frame.
#[derive(Debug, Clone, Copy, PartialEq, Eq, Structural)]
pub struct Frame {
    pub duration_ms: u32,
}

/// The play direction of a frame tag.
#[derive(Debug, Clone, Copy, PartialEq, Eq, Structural)]
pub enum TagDirection {
    Forward,
    Reverse,
    PingPong,
}

/// A named range of frames.
#[derive(Debug, PartialEq, Eq)]
pub struct FrameTag {
    pub name: String,
    pub from_frame: u32,
    pub to_frame: u32,
    pub direction: TagDirection,
    pub repeat: u32,
}

/// What a frame tag holds, as mathematical values.
#[verifier::ext_equal]
pub struct FrameTagView {
    pub name: Seq<char>,
    pub from_frame: u32,
    pub to_frame: u32,
    pub direction: TagDirection,
    pub repeat: u32,
}

impl View for FrameTag {
    type V = FrameTagView;

    open spec fn view(&self) -> FrameTagView {
        FrameTagView {
            name: self.name@,
            from_frame: self.from_frame,
            to_frame: self.to_frame,
            direction: self.direction,
            repeat: self.repeat,
        }
    }
}

/// In-memory sprite document mirroring Aseprite semantics.
#[derive(Debug, PartialEq, Eq)]
pub struct SpriteDocument {
    pub width: u32,
    pub height: u32,
    pub color_mode: ColorMode,
    pub pixel_aspect: (u8, u8),
    pub color_profile: ColorProfile,
    pub user_data: Vec<u8>,
    pub palette: Palette,
    pub frames: Vec<Frame>,
    pub layers: Vec<Layer>,
    pub images: Vec<PixelGrid>,
    pub cels: Vec<Cel>,
    pub tags: Vec<FrameTag>,
    pub slices: Vec<Slice>,
    pub tilesets: Vec<TilesetRef>,
}

/// What a sprite document holds, as mathematical values.
#[verifier::ext_equal]
pub struct DocView {
    pub width: u32,
    pub height: u32,
    pub color_mode: ColorMode,
    pub pixel_aspect: (u8, u8),
    pub color_profile: ColorProfile,
    pub user_data: Seq<u8>,
    pub palette: Seq<Rgba>,
    pub frames: Seq<Frame>,
    pub layers: Seq<LayerView>,
    pub images: Seq<PixelGridView>,
    pub cels: Seq<Cel>,
    pub tags: Seq<FrameTagView>,
    pub slices: Seq<SliceView>,
    pub tilesets: Seq<TilesetRefView>,
}

impl View for SpriteDocument {
    type V = DocView;

    open spec fn view(&self) -> DocView {
        DocView {
            width: self.width,
            height: self.height,
            color_mode: self.color_mode,
            pixel_aspect: self.pixel_aspect,
            color_profile: self.color_profile,
            user_data: self.user_data@,
            palette: self.palette@,
            frames: self.frames@,
            layers: self.layers@.map_values(|l: Layer| l@),
            images: self.images@.map_values(|g: PixelGrid| g@),
            cels: self.cels@,
            tags: self.tags@.map_values(|t: FrameTag| t@),
            slices: self.slices@.map_values(|s: Slice| s@),
            tilesets: self.tilesets@.map_values(|t: TilesetRef| t@),
        }
    }
}

impl SpriteDocument {
    /// A blank sprite: one 100 ms frame, a background layer named "Background"
    /// with one empty image in its cel, and the default palette when indexed.
    pub fn new_blank(width: u32, height: u32, color_mode: ColorMode) -> (d: SpriteDocument)
        requires
            grid_fits(width, height, color_mode),
        ensures
            d@ == blank_doc(width, height, color_mode),
    {
        let palette = match color_mode {
            ColorMode::Indexed => Palette::indexed_default(),
            _ => Palette { colors: Vec::new() },
        };
        let image = PixelGrid::new_empty(width, height, color_mode);
        let mut frames: Vec<Frame> = Vec::new();
        frames.push(Frame { duration_ms: 100 });
        let mut layers: Vec<Layer> = Vec::new();
        layers.push(Layer::background("Background"));
        let mut images: Vec<PixelGrid> = Vec::new();
        images.push(image);
        let mut doc = SpriteDocument {
            width,
            height,
            color_mode,
            pixel_aspect: (1, 1),
            color_profile: ColorProfile::Srgb,
            user_data: Vec::new(),
            palette,
            frames,
            layers,
            images,
            cels: Vec::new(),
            tags: Vec::new(),
            slices: Vec::new(),
            tilesets: Vec::new(),
        };
        doc.cels.push(
            Cel {
                layer: 0,
                frame: 0,
                x: 0,
                y: 0,
                opacity: 255,
                z_index: 0,
                image_id: 0,
                link: CelLink::Unlinked,
            },
        );
        proof {
            assert(doc@.layers =~= blank_doc(width, height, color_mode).layers);
            assert(doc@.images =~= blank_doc(width, height, color_mode).images);
            assert(doc@.tags =~= Seq::<FrameTagView>::empty());
            assert(doc@.slices =~= Seq::<SliceView>::empty());
            assert(doc@.tilesets =~= Seq::<TilesetRefView>::empty());
        }
        doc
    }

    /// The index of the first cel at (layer, frame).
    pub(crate) fn cel_index(&self, layer: usize, frame: usize) -> (r: Option<usize>)
        ensures
            match r {
                Some(i) => find_cel(self.cels@, layer, frame) == Some(i as int),
                None => find_cel(self.cels@, layer, frame) is None,
            },
    {
        let mut i: usize = 0;
        while i < self.cels.len()
            invariant
                i <= self.cels.len(),
                find_cel(self.cels@, layer, frame) == find_cel_from(self.cels@, layer, frame, i as nat),
            decreases self.cels.len() - i,
        {
            if self.cels[i].layer == layer && self.cels[i].frame == frame {
                return Some(i);
            }
            i = i + 1;
        }
        None
    }

    /// The first cel at (layer, frame).
    pub fn cel(&self, layer: usize, frame: usize) -> (r: Option<&Cel>)
        ensures
            r == (match find_cel(self.cels@, layer, frame) {
                Some(i) => Some(&self.cels@[i]),
                None => None::<&Cel>,
            }),
    {
        proof {
            lemma_find_cel(self.cels@, layer, frame);
        }
        match self.cel_index(layer, frame) {
            Some(i) => Some(&self.cels[i]),
            None => None,
        }
    }

    /// The first cel at (layer, frame), to change in place.
    pub fn cel_mut(&mut self, layer: usize, frame: usize) -> (r: Option<&mut Cel>)
        ensures
            match r {
                Some(c) => exists|i: int|
                    find_cel(old(self).cels@, layer, frame) == Some(i) && *c == old(self).cels@[i]
                        && final(self)@ == (DocView {
                        cels: old(self)@.cels.update(i, *final(c)),
                        ..old(self)@
                    }),
                None => find_cel(old(self).cels@, layer, frame) is None && *final(self) == *old(self),
            },
    {
        proof {
            lemma_find_cel(self.cels@, layer, frame);
        }
        match self.cel_index(layer, frame) {
            Some(i) => Some(&mut self.cels[i]),
            None => None,
        }
    }

    /// The image with this id.
    pub fn image(&self, image_id: usize) -> (r: Option<&PixelGrid>)
        ensures
            r == (if image_id < self.images@.len() {
                Some(&self.images@[image_id as int])
            } else {
                None::<&PixelGrid>
            }),
    {
        if image_id < self.images.len() {
            Some(&self.images[image_id])
        } else {
            None
        }
    }

    /// The image a cel draws its pixels from, following its links.
    fn resolved_image_id(&self, cel: &Cel, fuel: Ghost<nat>) -> (r: Option<usize>)
        requires
            resolve_within(self.cels@, *cel, fuel@) is Some,
        ensures
            resolve_within(self.cels@, *cel, fuel@) == Some(r),
        decreases fuel@,
    {
        match cel.link {
            CelLink::Unlinked => Some(cel.image_id),
            CelLink::Linked { source, .. } => match self.cel_index(source.layer, source.frame) {
                None => None,
                Some(i) => {
                    proof {
                        lemma_find_cel(self.cels@, source.layer, source.frame);
                    }
                    let s = &self.cels[i];
                    match self.resolved_image_id(s, Ghost((fuel@ - 1) as nat)) {
                        Some(id) => Some(id),
                        None => Some(s.image_id),
                    }
                },
            },
        }
    }

    /// The pixels a cel shows, following its links; `None` when its image cannot be found.
    pub fn resolved_pixels(&self, cel: &Cel) -> (r: Option<&PixelGrid>)
        requires
            resolvable(self.cels@, *cel),
        ensures
            r == (match resolved_image_id(self.cels@, *cel) {
                Some(id) => if id < self.images@.len() {
                    Some(&self.images@[id as int])
                } else {
                    None::<&PixelGrid>
                },
                None => None::<&PixelGrid>,
            }),
            match r {
                Some(g) => resolved_pixels_of(self@, *cel) == Some(g@),
                None => resolved_pixels_of(self@, *cel) is None,
            },
    {
        let ghost f = choose|f: nat| (#[trigger] resolve_within(self.cels@, *cel, f)) is Some;
        proof {
            lemma_resolved_image_id(self.cels@, *cel, f);
        }
        match self.resolved_image_id(cel, Ghost(f)) {
            Some(id) => self.image(id),
            None => None,
        }
    }
}

} // verus!
