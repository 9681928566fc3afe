//! The ways in which decoding an archive can fail.

use vstd::prelude::*;

verus! {

/// Why a directory, an entry or a resource could not be decoded.
#[derive(Debug, Clone, Copy, PartialEq, Eq, Structural)]
pub enum GlbError {
    /// A directory chunk is not exactly 28 bytes long, or the directory
    /// announces more chunks than the archive holds.
    ChunkSizeMismatch,
    /// The flag of a directory entry is neither 0 nor 1.
    UnknownFlag,
    /// A name or a text payload is not valid UTF-8.
    InvalidText,
    /// A read reaches past the end of the bytes it reads from.
    OutOfBounds,
    /// A sprite span writes past the end of the pixel grid.
    SpriteOverflow,
    /// The name of an entry matches no dispatch rule.
    UnknownEntryKind,
}

impl GlbError {
    /// A short description of the failure for diagnostics.
    pub fn message(&self) -> (text: &'static str)
        ensures
            text@ == match *self {
                GlbError::ChunkSizeMismatch => "directory chunk is not 28 bytes"@,
                GlbError::UnknownFlag => "unknown directory entry flag"@,
                GlbError::InvalidText => "invalid text"@,
                GlbError::OutOfBounds => "read out of bounds"@,
                GlbError::SpriteOverflow => "sprite span exceeds the pixel grid"@,
                GlbError::UnknownEntryKind => "unknown entry kind"@,
            },
    {
        match self {
            GlbError::ChunkSizeMismatch => "directory chunk is not 28 bytes",
            GlbError::UnknownFlag => "unknown directory entry flag",
            GlbError::InvalidText => "invalid text",
            GlbError::OutOfBounds => "read out of bounds",
            GlbError::SpriteOverflow => "sprite span exceeds the pixel grid",
            GlbError::UnknownEntryKind => "unknown entry kind",
        }
    }
}

} // verus!
