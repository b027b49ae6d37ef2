use vstd::prelude::*;

verus! {

/// Failure kinds of the byte-stuffing framing codec.
#[derive(Debug, Clone, PartialEq, Eq)]
pub enum Error {
    /// A special character appeared where it may not be repeated.
    DuplicateSpecialChar,
    /// An escape marker in the frame body was followed by a byte that is not
    /// one of the four stuffed replacements: a reserved marker stood in the
    /// data without being escaped.
    FendCharInData,
    /// An escape marker was the last byte of the frame body, with no
    /// replacement byte after it.
    MissingTradeChar,
    /// The first byte of the frame is not the boundary marker.
    MissingFirstFend,
    /// The last byte of the frame is not the boundary marker.
    MissingFinalFend,
    /// Too few bytes to be a frame at all.
    TooFewData,
    /// The checksum of a decoded frame is invalid.
    InvalidChecksum,
    /// Too much data for the caller-chosen encode or decode capacity.
    TooMuchData,
}

} // verus!
