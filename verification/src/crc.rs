//! The CRC-32 checksum that protects each chunk's type and data bytes.
use vstd::prelude::*;

verus! {

/// The CRC-32 (ISO-3309: reflected polynomial, register initialized to
/// all ones) of a byte sequence. The checksum is a function of the bytes
/// alone; the library never states its value, only that serialization
/// stores it and parsing recomputes and compares it.
pub uninterp spec fn crc32_of(bytes: Seq<u8>) -> u32;

/// Relies on crc32fast::hash: the ISO-3309 CRC-32 of the byte slice,
/// computed from those bytes alone.
#[verifier::external_body]
pub(crate) fn crc32(bytes: &[u8]) -> (r: u32)
    ensures
        r == crc32_of(bytes@),
{
    crc32fast::hash(bytes)
}

} // verus!
