use vstd::prelude::*;

verus! {

/// Why a decode failed. Every failure is terminal for the call that raised
/// it: the decoders never guess past a malformed record.
#[derive(Debug, Clone, Copy, PartialEq, Eq, Structural)]
pub enum DecodeError {
    /// The bytes at `position` do not match the expected magic tag.
    InvalidMagic { position: u64 },
    /// A read of `width` bytes at `position` would pass the end of a buffer
    /// holding `available` bytes.
    Truncated { position: u64, width: u64, available: u64 },
    /// A major-version byte or an enum byte holds an unrecognized value.
    UnsupportedVersion { value: u8 },
    /// The compressed body was rejected by the decompressor.
    DecompressionFailed,
    /// A required record field, the `field`-th slot of its schema, resolved
    /// to absent and no default is defined for it.
    MissingField { field: u64 },
}

} // verus!
