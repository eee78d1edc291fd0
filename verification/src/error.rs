//! The error conditions that parsing, validation and lookup surface.
use vstd::prelude::*;

verus! {

/// Every failure the library reports. No operation recovers internally:
/// the first failure is returned to the caller as one of these variants.
#[derive(Debug, Clone, Copy, PartialEq, Eq, Structural)]
pub enum PngError {
    /// A 4-byte buffer fails the type-code rules (non-alphabetic byte,
    /// or an invalid reserved bit for the stricter constructor).
    InvalidTypeCode,
    /// A type-code string is not exactly 4 bytes long.
    WrongLength,
    /// A type-code string holds a non-alphabetic byte; carries the first one.
    InvalidCharacter(u8),
    /// Fewer bytes were available than a parse step required.
    UnexpectedEof,
    /// A chunk's declared length disagrees with its actual data size.
    LengthMismatch,
    /// A chunk's recomputed CRC-32 disagrees with the stored CRC field.
    CrcMismatch,
    /// A container's leading 8 bytes are not the standard PNG magic.
    BadSignature,
    /// Chunk data requested as text is not valid UTF-8.
    InvalidEncoding,
    /// No chunk of the requested type exists (removal only).
    NotFound,
}

} // verus!
