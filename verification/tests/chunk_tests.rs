//! Tests for chunks: construction, the byte layout, round trips,
//! corruption detection and payload decoding.
use pngme::chunk::Chunk;
use pngme::chunk_type::ChunkType;
use pngme::error::PngError;

fn chunk_of(code: &str, data: &[u8]) -> Chunk {
    let t = ChunkType::from_string(code).unwrap();
    Chunk::new(t, data.to_vec())
}

#[test]
fn new_computes_length_and_known_crc() {
    // The empty IEND chunk closes every real PNG; its CRC is fixed.
    let c = chunk_of("IEND", &[]);
    assert_eq!(c.length(), 0);
    assert_eq!(c.crc(), 0xAE426082);
    assert_eq!(c.data(), &[] as &[u8]);
}

#[test]
fn serialized_layout_is_exact() {
    let c = chunk_of("IEND", &[]);
    assert_eq!(
        c.as_bytes(),
        vec![0, 0, 0, 0, 0x49, 0x45, 0x4E, 0x44, 0xAE, 0x42, 0x60, 0x82]
    );
}

#[test]
fn length_counts_only_data() {
    let c = chunk_of("RuSt", b"This is where your secret message will be!");
    assert_eq!(c.length(), 42);
    assert_eq!(c.as_bytes().len(), 42 + 12);
    assert_eq!(c.chunk_type().bytes(), [82, 117, 83, 116]);
}

#[test]
fn round_trip_preserves_everything() {
    let c = chunk_of("RuSt", b"This is where your secret message will be!");
    let bytes = c.as_bytes();
    let parsed = Chunk::parse(bytes.as_slice()).unwrap();
    assert_eq!(parsed.length(), c.length());
    assert_eq!(parsed.chunk_type().bytes(), c.chunk_type().bytes());
    assert_eq!(parsed.data(), c.data());
    assert_eq!(parsed.crc(), c.crc());
}

#[test]
fn round_trip_of_empty_data() {
    let c = chunk_of("teXt", &[]);
    let parsed = Chunk::parse(c.as_bytes().as_slice()).unwrap();
    assert_eq!(parsed.length(), 0);
    assert_eq!(parsed.crc(), c.crc());
}

#[test]
fn bit_flip_in_data_is_caught() {
    let c = chunk_of("RuSt", b"payload under protection");
    let mut bytes = c.as_bytes();
    // Flip one bit inside the data region (which starts at offset 8).
    bytes[10] ^= 0x01;
    assert!(matches!(
        Chunk::parse(bytes.as_slice()),
        Err(PngError::CrcMismatch)
    ));
}

#[test]
fn every_data_bit_flip_is_caught() {
    let c = chunk_of("RuSt", b"abc");
    let clean = c.as_bytes();
    for byte_idx in 8..11 {
        for bit in 0..8 {
            let mut bytes = clean.clone();
            bytes[byte_idx] ^= 1u8 << bit;
            assert!(matches!(
                Chunk::parse(bytes.as_slice()),
                Err(PngError::CrcMismatch)
            ));
        }
    }
}

#[test]
fn bit_flip_in_crc_is_caught() {
    let c = chunk_of("RuSt", b"abc");
    let clean = c.as_bytes();
    let n = clean.len();
    for byte_idx in (n - 4)..n {
        for bit in 0..8 {
            let mut bytes = clean.clone();
            bytes[byte_idx] ^= 1u8 << bit;
            assert!(matches!(
                Chunk::parse(bytes.as_slice()),
                Err(PngError::CrcMismatch)
            ));
        }
    }
}

#[test]
fn truncated_input_is_eof() {
    let c = chunk_of("RuSt", b"abc");
    let bytes = c.as_bytes();
    assert!(matches!(Chunk::parse(&bytes[..3]), Err(PngError::UnexpectedEof)));
    assert!(matches!(Chunk::parse(&bytes[..7]), Err(PngError::UnexpectedEof)));
    assert!(matches!(
        Chunk::parse(&bytes[..bytes.len() - 1]),
        Err(PngError::UnexpectedEof)
    ));
    assert!(matches!(Chunk::parse(&[]), Err(PngError::UnexpectedEof)));
}

#[test]
fn invalid_type_code_aborts_parse() {
    let c = chunk_of("RuSt", b"abc");
    let mut bytes = c.as_bytes();
    // Make the first type byte a digit.
    bytes[4] = 49;
    assert!(matches!(
        Chunk::parse(bytes.as_slice()),
        Err(PngError::InvalidTypeCode)
    ));
    // A lowercase reserved byte is refused by the strict parse rule too.
    let mut bytes2 = c.as_bytes();
    bytes2[6] = 115;
    assert!(matches!(
        Chunk::parse(bytes2.as_slice()),
        Err(PngError::InvalidTypeCode)
    ));
}

#[test]
fn data_as_string_decodes_utf8() {
    let c = chunk_of("ruSt", "this is a secret message".as_bytes());
    assert_eq!(c.data_as_string().unwrap(), "this is a secret message");
}

#[test]
fn data_as_string_rejects_non_utf8() {
    let c = chunk_of("ruSt", &[0xFF, 0xFE, 0x00]);
    assert_eq!(c.data_as_string(), Err(PngError::InvalidEncoding));
}
