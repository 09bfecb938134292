//! Copies of document values that keep everything they hold.

use vstd::prelude::*;

use super::layer::{Layer, LayerKind, ReferenceSource};
use super::pixels::{Palette, PixelGrid};
use super::slice::Slice;
use super::sprite::{FrameTag, SpriteDocument};
use super::tileset::{TilemapGrid, TilesetRef};

verus! {

/// A copy of a vector of copyable values.
pub(crate) fn copy_vec<T: Copy>(v: &Vec<T>) -> (r: Vec<T>)
    ensures
        r@ == v@,
{
    let mut r: Vec<T> = Vec::new();
    let mut i: usize = 0;
    while i < v.len()
        invariant
            i <= v.len(),
            r@ == v@.take(i as int),
        decreases v.len() - i,
    {
        r.push(v[i]);
        proof {
            assert(v@.take(i + 1) =~= v@.take(i as int).push(v@[i as int]));
        }
        i = i + 1;
    }
    proof {
        assert(v@.take(v.len() as int) =~= v@);
    }
    r
}

impl Clone for TilemapGrid {
    fn clone(&self) -> (r: Self)
        ensures
            r@ == self@,
    {
        TilemapGrid { width: self.width, height: self.height, tiles: copy_vec(&self.tiles) }
    }
}

impl Clone for TilesetRef {
    fn clone(&self) -> (r: Self)
        ensures
            r@ == self@,
    {
        TilesetRef {
            name: self.name.clone(),
            tile_width: self.tile_width,
            tile_height: self.tile_height,
            external_path: match &self.external_path {
                Some(p) => Some(p.clone()),
                None => None,
            },
        }
    }
}

impl Clone for ReferenceSource {
    fn clone(&self) -> (r: Self)
        ensures
            r@ == self@,
    {
        match self {
            ReferenceSource::FilePath { path } => ReferenceSource::FilePath { path: path.clone() },
            ReferenceSource::Clipboard => ReferenceSource::Clipboard,
            ReferenceSource::Embedded { name } => ReferenceSource::Embedded { name: name.clone() },
        }
    }
}

impl Clone for LayerKind {
    fn clone(&self) -> (r: Self)
        ensures
            r@ == self@,
    {
        match self {
            LayerKind::Normal => LayerKind::Normal,
            LayerKind::Group { collapsed } => LayerKind::Group { collapsed: *collapsed },
            LayerKind::Tilemap { tileset_id, grid } => LayerKind::Tilemap { tileset_id: *tileset_id, grid: grid.clone() },
            LayerKind::Reference { source } => LayerKind::Reference { source: source.clone() },
        }
    }
}

impl Clone for Layer {
    fn clone(&self) -> (r: Self)
        ensures
            r@ == self@,
    {
        Layer {
            name: self.name.clone(),
            visible: self.visible,
            opacity: self.opacity,
            blend_mode: self.blend_mode,
            parent: self.parent,
            kind: self.kind.clone(),
            is_background: self.is_background,
            is_editable: self.is_editable,
        }
    }
}

impl Clone for FrameTag {
    fn clone(&self) -> (r: Self)
        ensures
            r@ == self@,
    {
        FrameTag {
            name: self.name.clone(),
            from_frame: self.from_frame,
            to_frame: self.to_frame,
            direction: self.direction,
            repeat: self.repeat,
        }
    }
}

impl Clone for Slice {
    fn clone(&self) -> (r: Self)
        ensures
            r@ == self@,
    {
        Slice { name: self.name.clone(), bounds: self.bounds, pivot: self.pivot }
    }
}

impl Clone for Palette {
    fn clone(&self) -> (r: Self)
        ensures
            r@ == self@,
    {
        Palette { colors: copy_vec(&self.colors) }
    }
}

impl Clone for PixelGrid {
    fn clone(&self) -> (r: Self)
        ensures
            r@ == self@,
    {
        self.duplicate()
    }
}

/// Copies of the layers.
fn clone_layers(v: &Vec<Layer>) -> (r: Vec<Layer>)
    ensures
        r@.map_values(|l: Layer| l@) == v@.map_values(|l: Layer| l@),
{
    let mut r: Vec<Layer> = Vec::new();
    let mut i: usize = 0;
    while i < v.len()
        invariant
            i <= v.len(),
            r@.len() == i,
            forall|k: int| 0 <= k < i ==> (#[trigger] r@[k])@ == v@[k]@,
        decreases v.len() - i,
    {
        let c = v[i].clone();
        r.push(c);
        i = i + 1;
    }
    proof {
        assert(r@.map_values(|l: Layer| l@) =~= v@.map_values(|l: Layer| l@));
    }
    r
}

/// Copies of the images.
fn clone_images(v: &Vec<PixelGrid>) -> (r: Vec<PixelGrid>)
    ensures
        r@.map_values(|g: PixelGrid| g@) == v@.map_values(|g: PixelGrid| g@),
{
    let mut r: Vec<PixelGrid> = Vec::new();
    let mut i: usize = 0;
    while i < v.len()
        invariant
            i <= v.len(),
            r@.len() == i,
            forall|k: int| 0 <= k < i ==> (#[trigger] r@[k])@ == v@[k]@,
        decreases v.len() - i,
    {
        let c = v[i].duplicate();
        r.push(c);
        i = i + 1;
    }
    proof {
        assert(r@.map_values(|g: PixelGrid| g@) =~= v@.map_values(|g: PixelGrid| g@));
    }
    r
}

/// Copies of the frame tags.
fn clone_tags(v: &Vec<FrameTag>) -> (r: Vec<FrameTag>)
    ensures
        r@.map_values(|t: FrameTag| t@) == v@.map_values(|t: FrameTag| t@),
{
    let mut r: Vec<FrameTag> = Vec::new();
    let mut i: usize = 0;
    while i < v.len()
        invariant
            i <= v.len(),
            r@.len() == i,
            forall|k: int| 0 <= k < i ==> (#[trigger] r@[k])@ == v@[k]@,
        decreases v.len() - i,
    {
        let c = v[i].clone();
        r.push(c);
        i = i + 1;
    }
    proof {
        assert(r@.map_values(|t: FrameTag| t@) =~= v@.map_values(|t: FrameTag| t@));
    }
    r
}

/// Copies of the slices.
fn clone_slices(v: &Vec<Slice>) -> (r: Vec<Slice>)
    ensures
        r@.map_values(|s: Slice| s@) == v@.map_values(|s: Slice| s@),
{
    let mut r: Vec<Slice> = Vec::new();
    let mut i: usize = 0;
    while i < v.len()
        invariant
            i <= v.len(),
            r@.len() == i,
            forall|k: int| 0 <= k < i ==> (#[trigger] r@[k])@ == v@[k]@,
        decreases v.len() - i,
    {
        let c = v[i].clone();
        r.push(c);
        i = i + 1;
    }
    proof {
        assert(r@.map_values(|s: Slice| s@) =~= v@.map_values(|s: Slice| s@));
    }
    r
}

/// Copies of the tilesets.
fn clone_tilesets(v: &Vec<TilesetRef>) -> (r: Vec<TilesetRef>)
    ensures
        r@.map_values(|t: TilesetRef| t@) == v@.map_values(|t: TilesetRef| t@),
{
    let mut r: Vec<TilesetRef> = Vec::new();
    let mut i: usize = 0;
    while i < v.len()
        invariant
            i <= v.len(),
            r@.len() == i,
            forall|k: int| 0 <= k < i ==> (#[trigger] r@[k])@ == v@[k]@,
        decreases v.len() - i,
    {
        let c = v[i].clone();
        r.push(c);
        i = i + 1;
    }
    proof {
        assert(r@.map_values(|t: TilesetRef| t@) =~= v@.map_values(|t: TilesetRef| t@));
    }
    r
}

impl Clone for SpriteDocument {
    fn clone(&self) -> (r: Self)
        ensures
            r@ == self@,
    {
        SpriteDocument {
            width: self.width,
            height: self.height,
            color_mode: self.color_mode,
            pixel_aspect: self.pixel_aspect,
            color_profile: self.color_profile,
            user_data: copy_vec(&self.user_data),
            palette: self.palette.clone(),
            frames: copy_vec(&self.frames),
            layers: clone_layers(&self.layers),
            images: clone_images(&self.images),
            cels: copy_vec(&self.cels),
            tags: clone_tags(&self.tags),
            slices: clone_slices(&self.slices),
            tilesets: clone_tilesets(&self.tilesets),
        }
    }
}

} // verus!
