use vstd::prelude::*;

verus! {

/// Why a record was refused as malformed.
#[derive(Debug, Clone, Copy, PartialEq, Eq)]
pub enum BadMagicReason {
    /// A record signature did not match.
    Signature,
    /// An extra field carried an id this codec does not know.
    ExtraId(u16),
    /// The NTFS extra field's first sub-record is not tag 1.
    NtfsTag,
    /// The NTFS extra field's first sub-record is not 24 bytes long.
    NtfsSize,
    /// The extended-timestamp flags use bits outside 0x07.
    TimestampFlags,
    /// A compression method number outside the known set.
    CompressionMethod,
    /// The input is shorter than an end-of-central-directory record.
    TooShort,
    /// No end-of-central-directory signature in the scanned tail.
    EocdNotFound,
    /// An entry is marked as holding compressed bytes under a method other than Deflate.
    CompressedNotDeflate,
}

/// Errors of the archive engine; each carries the byte position where it arose.
#[derive(Debug, Clone, PartialEq, Eq)]
pub enum ZipError {
    /// A signature, tag or flag field held a value that is not allowed.
    BadMagic { pos: u64, reason: BadMagicReason },
    /// The input ended inside the record that starts at `pos`.
    Io { pos: u64 },
    /// A DEFLATE stream could not be decoded.
    Decode { pos: u64 },
    /// A DEFLATE stream could not be encoded.
    Encode { pos: u64 },
    /// An entry name is not valid UTF-8.
    NameNotUtf8 { pos: u64 },
    /// An error raised by a layer around the engine.
    Custom { pos: u64, message: String },
}

} // verus!
