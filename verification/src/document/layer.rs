//! Layers: normal, group, tilemap and reference layers.

use vstd::prelude::*;

use super::tileset::{TilemapGrid, TilemapGridView};

verus! {

/// How a layer is composited onto the layers below it.
#[derive(Debug, Clone, Copy, PartialEq, Eq, Structural, Default)]
pub enum BlendMode {
    #[default]
    Normal,
    Multiply,
    Screen,
    Overlay,
    Darken,
    Lighten,
    ColorDodge,
    ColorBurn,
    HardLight,
    SoftLight,
    Difference,
    Exclusion,
    Hue,
    Saturation,
    Color,
    Luminosity,
    Addition,
    Subtract,
    Divide,
}

/// The number that stands for a blend mode in `.aseprite` files.
pub open spec fn blend_mode_code(m: BlendMode) -> u16 {
    match m {
        BlendMode::Normal => 0,
        BlendMode::Multiply => 1,
        BlendMode::Screen => 2,
        BlendMode::Overlay => 3,
        BlendMode::Darken => 4,
        BlendMode::Lighten => 5,
        BlendMode::ColorDodge => 6,
        BlendMode::ColorBurn => 7,
        BlendMode::HardLight => 8,
        BlendMode::SoftLight => 9,
        BlendMode::Difference => 10,
        BlendMode::Exclusion => 11,
        BlendMode::Hue => 12,
        BlendMode::Saturation => 13,
        BlendMode::Color => 14,
        BlendMode::Luminosity => 15,
        BlendMode::Addition => 16,
        BlendMode::Subtract => 17,
        BlendMode::Divide => 18,
    }
}

impl BlendMode {
    /// The number that stands for this blend mode in `.aseprite` files.
    pub fn code(&self) -> (c: u16)
        ensures
            c == blend_mode_code(*self),
    {
        match self {
            BlendMode::Normal => 0,
            BlendMode::Multiply => 1,
            BlendMode::Screen => 2,
            BlendMode::Overlay => 3,
            BlendMode::Darken => 4,
            BlendMode::Lighten => 5,
            BlendMode::ColorDodge => 6,
            BlendMode::ColorBurn => 7,
            BlendMode::HardLight => 8,
            BlendMode::SoftLight => 9,
            BlendMode::Difference => 10,
            BlendMode::Exclusion => 11,
            BlendMode::Hue => 12,
            BlendMode::Saturation => 13,
            BlendMode::Color => 14,
            BlendMode::Luminosity => 15,
            BlendMode::Addition => 16,
            BlendMode::Subtract => 17,
            BlendMode::Divide => 18,
        }
    }
}

/// Where the image of a reference layer comes from.
#[derive(Debug, PartialEq, Eq)]
pub enum ReferenceSource {
    FilePath { path: String },
    Clipboard,
    Embedded { name: String },
}

/// What a reference source holds, as mathematical values.
#[verifier::ext_equal]
pub enum ReferenceSourceView {
    FilePath { path: Seq<char> },
    Clipboard,
    Embedded { name: Seq<char> },
}

impl View for ReferenceSource {
    type V = ReferenceSourceView;

    open spec fn view(&self) -> ReferenceSourceView {
        match self {
            ReferenceSource::FilePath { path } => ReferenceSourceView::FilePath { path: path@ },
            ReferenceSource::Clipboard => ReferenceSourceView::Clipboard,
            ReferenceSource::Embedded { name } => ReferenceSourceView::Embedded { name: name@ },
        }
    }
}

/// The kind of a layer.
#[derive(Debug, PartialEq, Eq)]
pub enum LayerKind {
    Normal,
    Group { collapsed: bool },
    Tilemap { tileset_id: usize, grid: TilemapGrid },
    Reference { source: ReferenceSource },
}

/// What a layer kind holds, as mathematical values.
#[verifier::ext_equal]
pub enum LayerKindView {
    Normal,
    Group { collapsed: bool },
    Tilemap { tileset_id: usize, grid: TilemapGridView },
    Reference { source: ReferenceSourceView },
}

impl View for LayerKind {
    type V = LayerKindView;

    open spec fn view(&self) -> LayerKindView {
        match self {
            LayerKind::Normal => LayerKindView::Normal,
            LayerKind::Group { collapsed } => LayerKindView::Group { collapsed: *collapsed },
            LayerKind::Tilemap { tileset_id, grid } => LayerKindView::Tilemap {
                tileset_id: *tileset_id,
                grid: grid@,
            },
            LayerKind::Reference { source } => LayerKindView::Reference { source: source@ },
        }
    }
}

/// A layer of the sprite.
#[derive(Debug, PartialEq, Eq)]
pub struct Layer {
    pub name: String,
    pub visible: bool,
    pub opacity: u8,
    pub blend_mode: BlendMode,
    pub parent: Option<usize>,
    pub kind: LayerKind,
    pub is_background: bool,
    pub is_editable: bool,
}

/// What a layer holds, as mathematical values.
#[verifier::ext_equal]
pub struct LayerView {
    pub name: Seq<char>,
    pub visible: bool,
    pub opacity: u8,
    pub blend_mode: BlendMode,
    pub parent: Option<usize>,
    pub kind: LayerKindView,
    pub is_background: bool,
    pub is_editable: bool,
}

impl View for Layer {
    type V = LayerView;

    open spec fn view(&self) -> LayerView {
        LayerView {
            name: self.name@,
            visible: self.visible,
            opacity: self.opacity,
            blend_mode: self.blend_mode,
            parent: self.parent,
            kind: self.kind@,
            is_background: self.is_background,
            is_editable: self.is_editable,
        }
    }
}

/// A visible, opaque, editable top-level layer with normal blending.
pub open spec fn plain_layer(name: Seq<char>, kind: LayerKindView, is_background: bool) -> LayerView {
    LayerView {
        name,
        visible: true,
        opacity: 255,
        blend_mode: BlendMode::Normal,
        parent: None,
        kind,
        is_background,
        is_editable: true,
    }
}

impl LayerView {
    /// Only normal layers hold cels.
    pub open spec fn accepts_cels(self) -> bool {
        self.kind is Normal
    }
}

impl Layer {
    /// The background layer of a sprite.
    pub fn background(name: &str) -> (l: Layer)
        ensures
            l@ == plain_layer(name@, LayerKindView::Normal, true),
    {
        Layer {
            name: name.to_owned(),
            visible: true,
            opacity: 255,
            blend_mode: BlendMode::Normal,
            parent: None,
            kind: LayerKind::Normal,
            is_background: true,
            is_editable: true,
        }
    }

    /// A normal layer.
    pub fn normal(name: &str) -> (l: Layer)
        ensures
            l@ == plain_layer(name@, LayerKindView::Normal, false),
    {
        Layer {
            name: name.to_owned(),
            visible: true,
            opacity: 255,
            blend_mode: BlendMode::Normal,
            parent: None,
            kind: LayerKind::Normal,
            is_background: false,
            is_editable: true,
        }
    }

    /// A group layer.
    pub fn group(name: &str, collapsed: bool) -> (l: Layer)
        ensures
            l@ == plain_layer(name@, LayerKindView::Group { collapsed }, false),
    {
        Layer {
            name: name.to_owned(),
            visible: true,
            opacity: 255,
            blend_mode: BlendMode::Normal,
            parent: None,
            kind: LayerKind::Group { collapsed },
            is_background: false,
            is_editable: true,
        }
    }

    /// Whether the layer holds cels: only normal layers do.
    pub fn accepts_cels(&self) -> (b: bool)
        ensures
            b == self@.accepts_cels(),
    {
        match self.kind {
            LayerKind::Normal => true,
            _ => false,
        }
    }
}

} // verus!
