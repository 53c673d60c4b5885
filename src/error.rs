//! The ways in which the decode of one file can fail.

use vstd::prelude::*;

verus! {

/// Why one container could not be decoded.
#[derive(Debug, Clone, Copy, PartialEq, Eq, Structural)]
pub enum DecodeError {
    /// A declared length (of the extension or of the masked region) runs past
    /// the bytes that are present.
    Truncated,
    /// The base name holds a byte that is not 7-bit ASCII.
    InvalidName,
    /// The extension bytes are not well-formed UTF-8.
    InvalidExtension,
}

} // verus!
