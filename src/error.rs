use vstd::prelude::*;

verus! {

/// The ways in which reading or changing a PNG byte stream can fail.
#[derive(Debug, Clone, Copy, PartialEq, Eq, Structural)]
pub enum PngError {
    /// A type code holds a byte that is not an ASCII letter, or does not
    /// have exactly four bytes.
    InvalidTypeCode,
    /// The checksum stored after a chunk differs from the one computed over
    /// its type and data.
    ChecksumMismatch,
    /// The stream does not start with the eight PNG signature bytes.
    MalformedSignature,
    /// The stream ends before a chunk record is complete.
    TruncatedInput,
    /// A chunk's length field disagrees with the size of its data.
    LengthMismatch,
    /// A chunk's data is not valid UTF-8 text.
    InvalidUtf8Payload,
    /// No chunk of the requested type exists.
    ChunkNotFound,
}

} // verus!
