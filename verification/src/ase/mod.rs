//! The `.aseprite` file codec.

pub mod bytes;
pub mod format;
pub mod laws;
pub mod links;
pub mod read;
pub mod write;
pub mod zlib;

pub use read::read_ase;
pub use write::write_ase;
