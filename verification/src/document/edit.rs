//! Editing the layer stack, the cels and the document's lists.

use vstd::prelude::*;

use super::cel::{Cel, CelId, CelLink};
use super::layer::{BlendMode, Layer, LayerKind, LayerKindView, LayerView, ReferenceSource};
use super::model::{find_cel, lemma_find_cel, resolvable, resolved_pixels_of};
use super::pixels::{PixelGrid, empty_grid, grid_fits};
use super::slice::{Slice, SliceBounds, SliceView};
use super::sprite::{DocView, FrameTag, SpriteDocument};
use super::tileset::{TilemapGrid, TilesetRef};
use crate::error::CoreError;

verus! {

/// The empty cel of a new layer `layer` in frame `frame`, showing image `image_id`.
pub open spec fn new_layer_cel(layer: usize, frame: usize, image_id: usize) -> Cel {
    Cel { layer, frame, x: 0, y: 0, opacity: 255, z_index: 0, image_id, link: CelLink::Unlinked }
}

/// The document after pushing `layer` and giving it an empty cel in each of the first `k` frames.
pub open spec fn add_layer_partial(d: DocView, layer: LayerView, k: nat) -> DocView {
    DocView {
        layers: d.layers.push(layer),
        images: d.images + Seq::new(k, |f: int| empty_grid(d.width, d.height, d.color_mode)),
        cels: d.cels + Seq::new(
            k,
            |f: int| new_layer_cel(d.layers.len() as usize, f as usize, (d.images.len() + f) as usize),
        ),
        ..d
    }
}

/// What `add_layer` makes of a document: the layer goes on top of the stack and
/// gets an empty cel, with its own empty image, in every frame.
pub open spec fn add_layer_model(d: DocView, layer: LayerView) -> DocView {
    add_layer_partial(d, layer, d.frames.len())
}

/// A top-level, visible, opaque, non-background layer with normal blending.
pub open spec fn top_layer(name: Seq<char>, kind: LayerKindView, is_editable: bool) -> LayerView {
    LayerView {
        name,
        visible: true,
        opacity: 255,
        blend_mode: BlendMode::Normal,
        parent: None,
        kind,
        is_background: false,
        is_editable,
    }
}

/// What `link_cels` makes of cel `t` when it links to cel `s` at `from`.
pub open spec fn linked_cel(t: Cel, s: Cel, from: CelId, share_position: bool) -> Cel {
    Cel {
        image_id: s.image_id,
        link: CelLink::Linked { source: from, share_position },
        x: if share_position { s.x } else { t.x },
        y: if share_position { s.y } else { t.y },
        ..t
    }
}

/// The document after `unlink_cel`: a linked cel at `layer` and `frame`
/// gets a new image holding the pixels it showed (an empty image when they
/// cannot be found) and loses its link; anything else leaves it unchanged.
pub open spec fn unlink_model(d: DocView, layer: usize, frame: usize) -> DocView {
    match find_cel(d.cels, layer, frame) {
        Some(i) => if d.cels[i].link is Unlinked {
            d
        } else {
            DocView {
                images: d.images.push(
                    match resolved_pixels_of(d, d.cels[i]) {
                        Some(g) => g,
                        None => empty_grid(d.width, d.height, d.color_mode),
                    },
                ),
                cels: d.cels.update(i, Cel { image_id: d.images.len() as usize, link: CelLink::Unlinked, ..d.cels[i] }),
                ..d
            }
        },
        None => d,
    }
}

/// Linking a cel to a source keeps the cel's place in the sprite, opacity
/// and z-index, gives it the source's image and a link to the source, and
/// moves it to the source's position exactly when the position is shared.
pub proof fn lemma_linked_cel_position(t: Cel, s: Cel, from: CelId, share_position: bool)
    ensures
        linked_cel(t, s, from, share_position).x == (if share_position {
            s.x
        } else {
            t.x
        }),
        linked_cel(t, s, from, share_position).y == (if share_position {
            s.y
        } else {
            t.y
        }),
        !share_position ==> linked_cel(t, s, from, share_position).x == t.x && linked_cel(
            t,
            s,
            from,
            share_position,
        ).y == t.y,
        linked_cel(t, s, from, share_position).image_id == s.image_id,
        linked_cel(t, s, from, share_position).link == (CelLink::Linked { source: from, share_position }),
        linked_cel(t, s, from, share_position).layer == t.layer,
        linked_cel(t, s, from, share_position).frame == t.frame,
        linked_cel(t, s, from, share_position).opacity == t.opacity,
        linked_cel(t, s, from, share_position).z_index == t.z_index,
{
}

/// `unlink_cel` can be carried out: the link chain of the cel is finite, and
/// an empty image can be made when its pixels are missing.
pub open spec fn unlink_ok(d: DocView, layer: usize, frame: usize) -> bool {
    match find_cel(d.cels, layer, frame) {
        Some(i) => d.cels[i].link is Linked ==> resolvable(d.cels, d.cels[i]) && (resolved_pixels_of(
            d,
            d.cels[i],
        ) is None ==> grid_fits(d.width, d.height, d.color_mode)),
        None => true,
    }
}

impl SpriteDocument {
    /// Pushes `layer` on top of the stack and gives it an empty cel, with an empty image,
    /// in every frame. Returns the layer's index.
    pub fn add_layer(&mut self, layer: Layer) -> (idx: usize)
        requires
            old(self).frames.len() > 0 ==> grid_fits(old(self).width, old(self).height, old(self).color_mode),
        ensures
            idx == old(self).layers.len(),
            final(self)@ == add_layer_model(old(self)@, layer@),
    {
        let ghost d0 = self@;
        let idx = self.layers.len();
        self.layers.push(layer);
        proof {
            assert(self@ =~= add_layer_partial(d0, layer@, 0));
        }
        let mut frame: usize = 0;
        while frame < self.frames.len()
            invariant
                frame <= self.frames.len(),
                self.frames@ == d0.frames,
                idx == d0.layers.len(),
                d0.frames.len() > 0 ==> grid_fits(d0.width, d0.height, d0.color_mode),
                self@ == add_layer_partial(d0, layer@, frame as nat),
            decreases self.frames.len() - frame,
        {
            let image_id = self.images.len();
            let img = PixelGrid::new_empty(self.width, self.height, self.color_mode);
            self.images.push(img);
            self.cels.push(
                Cel {
                    layer: idx,
                    frame,
                    x: 0,
                    y: 0,
                    opacity: 255,
                    z_index: 0,
                    image_id,
                    link: CelLink::Unlinked,
                },
            );
            proof {
                assert(add_layer_partial(d0, layer@, (frame + 1) as nat).images =~= add_layer_partial(
                    d0,
                    layer@,
                    frame as nat,
                ).images.push(empty_grid(d0.width, d0.height, d0.color_mode)));
                assert(add_layer_partial(d0, layer@, (frame + 1) as nat).cels =~= add_layer_partial(
                    d0,
                    layer@,
                    frame as nat,
                ).cels.push(new_layer_cel(idx, frame, image_id)));
                assert(self@.images =~= add_layer_partial(d0, layer@, (frame + 1) as nat).images);
                assert(self@.cels =~= add_layer_partial(d0, layer@, (frame + 1) as nat).cels);
            }
            frame = frame + 1;
        }
        idx
    }

    /// Adds a group layer, through `add_layer`. Returns its index.
    pub fn add_group(&mut self, name: &str, collapsed: bool) -> (idx: usize)
        requires
            old(self).frames.len() > 0 ==> grid_fits(old(self).width, old(self).height, old(self).color_mode),
        ensures
            idx == old(self).layers.len(),
            final(self)@ == add_layer_model(
                old(self)@,
                top_layer(name@, LayerKindView::Group { collapsed }, true),
            ),
    {
        self.add_layer(Layer::group(name, collapsed))
    }

    /// Pushes a reference layer, which cannot be edited and holds no cels. Returns its index.
    pub fn add_reference_layer(&mut self, name: &str, source: ReferenceSource) -> (idx: usize)
        ensures
            idx == old(self).layers.len(),
            final(self)@ == (DocView {
                layers: old(self)@.layers.push(
                    top_layer(name@, LayerKindView::Reference { source: source@ }, false),
                ),
                ..old(self)@
            }),
    {
        let layer = Layer {
            name: name.to_owned(),
            visible: true,
            opacity: 255,
            blend_mode: BlendMode::Normal,
            parent: None,
            kind: LayerKind::Reference { source },
            is_background: false,
            is_editable: false,
        };
        let idx = self.layers.len();
        self.layers.push(layer);
        proof {
            assert(self@.layers =~= old(self)@.layers.push(layer@));
        }
        idx
    }

    /// Pushes a tilemap layer over `grid`, drawn with tileset `tileset_id`. Returns its index.
    pub fn add_tilemap_layer(&mut self, name: &str, tileset_id: usize, grid: TilemapGrid) -> (idx: usize)
        ensures
            idx == old(self).layers.len(),
            final(self)@ == (DocView {
                layers: old(self)@.layers.push(
                    top_layer(name@, LayerKindView::Tilemap { tileset_id, grid: grid@ }, true),
                ),
                ..old(self)@
            }),
    {
        let layer = Layer {
            name: name.to_owned(),
            visible: true,
            opacity: 255,
            blend_mode: BlendMode::Normal,
            parent: None,
            kind: LayerKind::Tilemap { tileset_id, grid },
            is_background: false,
            is_editable: true,
        };
        let idx = self.layers.len();
        self.layers.push(layer);
        proof {
            assert(self@.layers =~= old(self)@.layers.push(layer@));
        }
        idx
    }

    /// Moves the layer at `from` to position `to` of the stack. The background
    /// layer cannot move, and no layer can move to the bottom.
    pub fn move_layer(&mut self, from: usize, to: usize) -> (r: Result<(), CoreError>)
        ensures
            from >= old(self).layers.len() || to >= old(self).layers.len() ==> *final(self) == *old(self)
                && (r matches Err(CoreError::Validation(m)) && m@ == "layer index out of range"@),
            from < old(self).layers.len() && to < old(self).layers.len() && (old(self)@.layers[from as int].is_background
                || to == 0) ==> *final(self) == *old(self) && (r matches Err(CoreError::Validation(m)) && m@
                == "background layer cannot be moved"@),
            from < old(self).layers.len() && to < old(self).layers.len() && !old(self)@.layers[from as int].is_background
                && to != 0 ==> r is Ok && final(self)@ == (DocView {
                layers: old(self)@.layers.remove(from as int).insert(to as int, old(self)@.layers[from as int]),
                ..old(self)@
            }),
    {
        if from >= self.layers.len() || to >= self.layers.len() {
            return Err(CoreError::Validation("layer index out of range".to_owned()));
        }
        if self.layers[from].is_background || to == 0 {
            return Err(CoreError::Validation("background layer cannot be moved".to_owned()));
        }
        let layer = self.layers.remove(from);
        self.layers.insert(to, layer);
        proof {
            assert(self@.layers =~= old(self)@.layers.remove(from as int).insert(
                to as int,
                old(self)@.layers[from as int],
            ));
        }
        Ok(())
    }

    /// Makes the cel at `to` share the image of the cel at `from` and link to it;
    /// with `share_position` it also takes that cel's position.
    pub fn link_cels(&mut self, from: CelId, to: CelId, share_position: bool) -> (r: Result<(), CoreError>)
        ensures
            find_cel(old(self).cels@, from.layer, from.frame) is None ==> *final(self) == *old(self)
                && (r matches Err(CoreError::Validation(m)) && m@ == "source cel missing"@),
            find_cel(old(self).cels@, from.layer, from.frame) is Some && find_cel(
                old(self).cels@,
                to.layer,
                to.frame,
            ) is None ==> *final(self) == *old(self) && (r matches Err(CoreError::Validation(m)) && m@
                == "target cel missing"@),
            match (find_cel(old(self).cels@, from.layer, from.frame), find_cel(old(self).cels@, to.layer, to.frame)) {
                (Some(i), Some(j)) => r is Ok && final(self)@ == (DocView {
                    cels: old(self).cels@.update(
                        j,
                        linked_cel(old(self).cels@[j], old(self).cels@[i], from, share_position),
                    ),
                    ..old(self)@
                }),
                _ => true,
            },
            match (find_cel(old(self).cels@, from.layer, from.frame), find_cel(old(self).cels@, to.layer, to.frame)) {
                (Some(i), Some(j)) => {
                    &&& final(self).cels@[j].x == (if share_position {
                        old(self).cels@[i].x
                    } else {
                        old(self).cels@[j].x
                    })
                    &&& final(self).cels@[j].y == (if share_position {
                        old(self).cels@[i].y
                    } else {
                        old(self).cels@[j].y
                    })
                    &&& final(self).cels@[j].image_id == old(self).cels@[i].image_id
                    &&& final(self).cels@[j].link == CelLink::Linked { source: from, share_position }
                    &&& final(self).cels@[j].layer == old(self).cels@[j].layer
                    &&& final(self).cels@[j].frame == old(self).cels@[j].frame
                    &&& final(self).cels@[j].opacity == old(self).cels@[j].opacity
                    &&& final(self).cels@[j].z_index == old(self).cels@[j].z_index
                },
                _ => true,
            },
    {
        proof {
            lemma_find_cel(self.cels@, from.layer, from.frame);
            lemma_find_cel(self.cels@, to.layer, to.frame);
        }
        let si = match self.cel_index(from.layer, from.frame) {
            Some(i) => i,
            None => {
                return Err(CoreError::Validation("source cel missing".to_owned()));
            },
        };
        let source = self.cels[si];
        let ti = match self.cel_index(to.layer, to.frame) {
            Some(i) => i,
            None => {
                return Err(CoreError::Validation("target cel missing".to_owned()));
            },
        };
        let mut target = self.cels[ti];
        target.image_id = source.image_id;
        target.link = CelLink::Linked { source: from, share_position };
        if share_position {
            target.x = source.x;
            target.y = source.y;
        }
        self.cels.set(ti, target);
        Ok(())
    }

    /// Gives a linked cel an image of its own, a copy of the pixels it showed
    /// (an empty image when they cannot be found), and removes its link.
    pub fn unlink_cel(&mut self, layer: usize, frame: usize) -> (r: Result<(), CoreError>)
        requires
            unlink_ok(old(self)@, layer, frame),
        ensures
            final(self)@ == unlink_model(old(self)@, layer, frame),
            match find_cel(old(self).cels@, layer, frame) {
                None => *final(self) == *old(self) && (r matches Err(CoreError::Validation(m)) && m@
                    == "cel missing"@),
                Some(i) => r is Ok && if old(self).cels@[i].link is Unlinked {
                    *final(self) == *old(self)
                } else {
                    final(self)@ == (DocView {
                        images: old(self)@.images.push(
                            match resolved_pixels_of(old(self)@, old(self).cels@[i]) {
                                Some(g) => g,
                                None => empty_grid(old(self).width, old(self).height, old(self).color_mode),
                            },
                        ),
                        cels: old(self).cels@.update(
                            i,
                            Cel {
                                image_id: old(self).images.len() as usize,
                                link: CelLink::Unlinked,
                                ..old(self).cels@[i]
                            },
                        ),
                        ..old(self)@
                    })
                },
            },
    {
        proof {
            lemma_find_cel(self.cels@, layer, frame);
        }
        let ci = match self.cel_index(layer, frame) {
            Some(i) => i,
            None => {
                return Err(CoreError::Validation("cel missing".to_owned()));
            },
        };
        let cel = self.cels[ci];
        if let CelLink::Unlinked = cel.link {
            return Ok(());
        }
        let pixels = match self.resolved_pixels(&cel) {
            Some(g) => g.duplicate(),
            None => PixelGrid::new_empty(self.width, self.height, self.color_mode),
        };
        let image_id = self.images.len();
        self.images.push(pixels);
        let mut target = cel;
        target.image_id = image_id;
        target.link = CelLink::Unlinked;
        self.cels.set(ci, target);
        proof {
            assert(self@.images =~= old(self)@.images.push(pixels@));
        }
        Ok(())
    }

    /// Appends a frame tag.
    pub fn add_tag(&mut self, tag: FrameTag)
        ensures
            final(self)@ == (DocView { tags: old(self)@.tags.push(tag@), ..old(self)@ }),
    {
        self.tags.push(tag);
        proof {
            assert(self@.tags =~= old(self)@.tags.push(tag@));
        }
    }

    /// Appends a slice without a pivot.
    pub fn add_slice(&mut self, name: &str, bounds: SliceBounds)
        ensures
            final(self)@ == (DocView {
                slices: old(self)@.slices.push(SliceView { name: name@, bounds, pivot: None }),
                ..old(self)@
            }),
    {
        let slice = Slice { name: name.to_owned(), bounds, pivot: None };
        self.slices.push(slice);
        proof {
            assert(self@.slices =~= old(self)@.slices.push(slice@));
        }
    }

    /// Appends a tileset. Returns its index.
    pub fn attach_tileset(&mut self, tileset: TilesetRef) -> (id: usize)
        ensures
            id == old(self).tilesets.len(),
            final(self)@ == (DocView { tilesets: old(self)@.tilesets.push(tileset@), ..old(self)@ }),
    {
        let id = self.tilesets.len();
        self.tilesets.push(tileset);
        proof {
            assert(self@.tilesets =~= old(self)@.tilesets.push(tileset@));
        }
        id
    }
}

} // verus!
