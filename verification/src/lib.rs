//! PixelForge core: the sprite document model of an Aseprite-compatible
//! editor and the codec of its `.aseprite` files.

pub mod ase;
pub mod document;
pub mod error;
pub mod fixtures;
pub mod postprocess;
pub mod text;

pub use document::SpriteDocument;
pub use error::CoreError;
