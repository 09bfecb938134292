//! The in-memory sprite document.

pub mod cel;
pub mod copy;
pub mod edit;
pub mod frames;
pub mod laws;
pub mod layer;
pub mod model;
pub mod order;
pub mod pixels;
pub mod slice;
pub mod sprite;
pub mod tileset;
pub mod validate;

pub use cel::{Cel, CelId, CelLink};
pub use layer::{BlendMode, Layer, LayerKind, LayerKindView, LayerView, ReferenceSource, ReferenceSourceView};
pub use pixels::{ColorMode, ColorProfile, Palette, PixelGrid, PixelGridView, Rgba};
pub use slice::{Slice, SliceBounds, SlicePivot, SliceView};
pub use sprite::{DocView, Frame, FrameTag, FrameTagView, SpriteDocument, TagDirection};
pub use tileset::{TilemapGrid, TilemapGridView, TilesetRef, TilesetRefView};
