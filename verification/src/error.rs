//! Errors of the core library.

use vstd::prelude::*;

verus! {

/// The error type of `std::io`, carried through from the compressor.
#[verifier::external_type_specification]
#[verifier::external_body]
pub struct ExIoError(std::io::Error);

/// Errors reported by the document model and the `.aseprite` codec.
#[derive(Debug)]
pub enum CoreError {
    /// The bytes are not an `.aseprite` file that this codec handles.
    InvalidAse(String),
    /// The colour depth in the header is not 8, 16 or 32 bits.
    UnsupportedVersion(u16),
    /// The compressor failed.
    Io(std::io::Error),
    /// The document breaks one of the model's rules.
    Validation(String),
}

} // verus!
