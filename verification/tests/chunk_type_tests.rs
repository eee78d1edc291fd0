//! Tests for chunk type codes: both constructors, the case-derived
//! flags, and the display form.
use pngme::chunk_type::ChunkType;
use pngme::error::PngError;

#[test]
fn from_bytes_valid_roundtrip() {
    let t = ChunkType::from_bytes([82, 117, 83, 116]).unwrap();
    assert_eq!(t.bytes(), [82, 117, 83, 116]);
    assert!(t.is_valid());
}

#[test]
fn from_bytes_all_uppercase() {
    let t = ChunkType::from_bytes([73, 72, 68, 82]).unwrap();
    assert_eq!(t.bytes(), [73, 72, 68, 82]);
    assert!(t.is_valid());
}

#[test]
fn from_bytes_rejects_non_alphabetic() {
    assert_eq!(
        ChunkType::from_bytes([82, 117, 36, 116]),
        Err(PngError::InvalidTypeCode)
    );
    assert_eq!(
        ChunkType::from_bytes([0, 0, 0, 0]),
        Err(PngError::InvalidTypeCode)
    );
    assert_eq!(
        ChunkType::from_bytes([82, 117, 83, 49]),
        Err(PngError::InvalidTypeCode)
    );
}

#[test]
fn from_bytes_rejects_reserved_bit() {
    // All alphabetic, but the third byte is lowercase.
    assert_eq!(
        ChunkType::from_bytes([82, 117, 115, 116]),
        Err(PngError::InvalidTypeCode)
    );
}

#[test]
fn case_flags_of_rust_mixed() {
    let t = ChunkType::from_string("RuSt").unwrap();
    assert!(t.is_critical());
    assert!(!t.is_public());
    assert!(t.is_reserved_bit_valid());
    assert!(t.is_safe_to_copy());
    assert!(t.is_valid());
}

#[test]
fn case_flags_of_rust_lower_reserved() {
    // The string constructor accepts a code the byte constructor refuses.
    let t = ChunkType::from_string("Rust").unwrap();
    assert!(!t.is_reserved_bit_valid());
    assert!(!t.is_valid());
    assert_eq!(t.bytes(), [82, 117, 115, 116]);
}

#[test]
fn flags_follow_each_byte() {
    let t = ChunkType::from_string("ruSt").unwrap();
    assert!(!t.is_critical());
    assert!(!t.is_public());
    assert!(t.is_reserved_bit_valid());
    assert!(t.is_safe_to_copy());
    let u = ChunkType::from_string("RUst").unwrap();
    assert!(u.is_critical());
    assert!(u.is_public());
    assert!(!u.is_reserved_bit_valid());
    assert!(u.is_safe_to_copy());
}

#[test]
fn from_string_wrong_length() {
    assert_eq!(ChunkType::from_string("abc"), Err(PngError::WrongLength));
    assert_eq!(ChunkType::from_string("abcde"), Err(PngError::WrongLength));
    assert_eq!(ChunkType::from_string(""), Err(PngError::WrongLength));
}

#[test]
fn from_string_invalid_character_names_first_offender() {
    assert_eq!(
        ChunkType::from_string("ab1d"),
        Err(PngError::InvalidCharacter(49))
    );
    assert_eq!(
        ChunkType::from_string("a1c2"),
        Err(PngError::InvalidCharacter(49))
    );
}

#[test]
fn equality_is_byte_wise() {
    let a = ChunkType::from_string("RuSt").unwrap();
    let b = ChunkType::from_bytes([82, 117, 83, 116]).unwrap();
    let c = ChunkType::from_string("ruSt").unwrap();
    assert!(a == b);
    assert!(a != c);
}

#[test]
fn display_string_is_the_code() {
    let t = ChunkType::from_string("RuSt").unwrap();
    assert_eq!(t.to_display_string(), "RuSt");
}
