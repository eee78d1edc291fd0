//! Chunk-level model of the PNG container format: validated 4-byte type
//! codes, CRC-protected chunks, and a container that parses, serializes,
//! and mutates an ordered chunk sequence.
use vstd::prelude::*;

pub mod chunk;
pub mod chunk_type;
pub mod cli;
pub mod crc;
pub mod error;
pub mod png;
pub mod text;
pub mod wire;

verus! {

/// True when `b` is an ASCII uppercase letter.
pub open spec fn is_upper(b: u8) -> bool {
    65 <= b <= 90
}

/// True when `b` is an ASCII lowercase letter.
pub open spec fn is_lower(b: u8) -> bool {
    97 <= b <= 122
}

/// True when `b` is an ASCII letter.
pub open spec fn is_alpha(b: u8) -> bool {
    is_upper(b) || is_lower(b)
}

} // verus!
