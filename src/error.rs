use vstd::prelude::*;

verus! {

/// The ways in which decoding or editing a chunk stream can fail.
#[derive(Clone, Copy, Debug, PartialEq, Eq, Structural)]
pub enum PngError {
    /// The buffer is too small for a fixed-size field.
    TooShort,
    /// A chunk declares more data than the buffer holds.
    TruncatedData,
    /// The stored CRC differs from the one computed over type and data.
    CrcMismatch,
    /// A chunk type holds a byte that is not an ASCII letter, or is not four bytes long.
    InvalidFormat,
    /// The buffer does not start with the PNG signature.
    InvalidSignature,
    /// Chunk data asked for as text is not valid UTF-8.
    InvalidEncoding,
    /// No chunk of the requested type is present.
    ChunkNotFound,
}

} // verus!
