//! The error kinds that the chunk and container operations report.

use vstd::prelude::*;

verus! {

/// Everything that can go wrong while building, parsing, or editing a PNG.
#[derive(Clone, Copy, Debug, PartialEq, Eq, Structural)]
pub enum PngError {
    /// Raw bytes or text do not form 4 ASCII letters.
    InvalidChunkType,
    /// Truncated buffer, length field exceeding the remaining bytes, or a
    /// stored CRC that does not match the recomputed checksum.
    ChunkParseError,
    /// The leading 8 bytes of a file buffer are not the PNG magic.
    InvalidSignature,
    /// A removal or required lookup found no chunk of the requested type.
    ChunkNotFound,
    /// Chunk data is not valid UTF-8 when display as text is requested.
    TextDecodeError,
}

} // verus!
