use vstd::prelude::*;

verus! {

/// Why a single chunk, or a chunk-type code, was refused.
#[derive(Debug, Clone, Copy, PartialEq, Eq, Structural)]
pub enum ChunkError {
    /// Fewer than the twelve bytes of an empty chunk.
    TooShort,
    /// The declared length does not match the bytes that follow it.
    LengthMismatch,
    /// The type code is not four letters with an uppercase third byte.
    InvalidTypeCode,
    /// The stored CRC differs from the one computed over type and data.
    ChecksumMismatch,
    /// The data is not UTF-8 text.
    NotUtf8Text,
}

/// Why a whole container was refused, or an operation on it failed.
#[derive(Debug, Clone, Copy, PartialEq, Eq, Structural)]
pub enum PngError {
    /// The first eight bytes are not the PNG signature.
    BadSignature,
    /// Bytes remain that cannot hold a whole chunk.
    TrailingGarbage,
    /// No chunk has the requested type.
    ChunkNotFound,
    /// The chunk at position `index` (counted from zero) was refused.
    Chunk { index: usize, error: ChunkError },
}

} // verus!
