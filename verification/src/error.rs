use vstd::prelude::*;

verus! {

/// Which structurally required chunk had the wrong payload length for its
/// type.
#[derive(Debug, Clone, Copy, PartialEq, Eq, Structural)]
pub enum BlockKind {
    /// The image-header chunk (13 payload bytes are required).
    Header,
    /// The end chunk (an empty payload is required).
    End,
}

/// A typed decode failure. Every stage of the decoder aborts with one of
/// these; no recovery is attempted inside the codec.
#[derive(Debug)]
pub enum Error {
    /// The underlying file read failed. Produced only by the unverified
    /// shell around the library, which reads the file.
    Io { message: String, path: String },
    /// The first 8 bytes are not the PNG magic signature.
    BadSignature,
    /// A read needed more bytes than remain.
    UnexpectedEnd,
    /// A chunk's CRC-32 does not match its declared checksum.
    ChecksumFailed,
    /// The first chunk is not an image-header chunk.
    MissingHeader,
    /// A structurally required chunk has the wrong payload length.
    IncompleteBlock { kind: BlockKind },
    /// No image-data chunk is present.
    NoImageData,
    /// The inflate stage reported an error (corrupt or truncated
    /// compressed data).
    DecompressionFailed,
    /// The header declares an unsupported color type, bit depth, or
    /// interlacing.
    UnsupportedFormat,
    /// A scanline's filter-type byte is outside 0 through 4.
    InvalidFilterType,
}

} // verus!
