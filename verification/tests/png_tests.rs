//! Tests for the container: signature handling, round trips, append,
//! remove and lookup, ending with a full hide-a-message scenario.
use pngme::chunk::Chunk;
use pngme::chunk_type::ChunkType;
use pngme::error::PngError;
use pngme::png::PNG;

fn standard_header() -> [u8; 8] {
    [0x89, 0x50, 0x4E, 0x47, 0x0D, 0x0A, 0x1A, 0x0A]
}

fn chunk_of(code: &str, data: &[u8]) -> Chunk {
    let t = ChunkType::from_string(code).unwrap();
    Chunk::new(t, data.to_vec())
}

fn testing_png() -> PNG {
    PNG::from_chunks(vec![
        chunk_of("FrSt", b"I am the first chunk"),
        chunk_of("miDl", b"I am another chunk"),
        chunk_of("LASt", b"I am the last chunk"),
    ])
}

#[test]
fn from_chunks_sets_standard_header() {
    let p = testing_png();
    assert_eq!(p.header(), &standard_header());
    assert_eq!(p.chunks().len(), 3);
    assert_eq!(p.chunks()[1].data(), b"I am another chunk");
}

#[test]
fn serialized_form_starts_with_signature() {
    let p = testing_png();
    let bytes = p.as_bytes();
    assert_eq!(&bytes[..8], &standard_header());
    let total: usize = 8 + p.chunks().iter().map(|c| c.data().len() + 12).sum::<usize>();
    assert_eq!(bytes.len(), total);
}

#[test]
fn round_trip_preserves_chunk_sequence() {
    let p = testing_png();
    let bytes = p.as_bytes();
    let parsed = PNG::parse(bytes.as_slice()).unwrap();
    assert_eq!(parsed.header(), &standard_header());
    assert_eq!(parsed.chunks().len(), p.chunks().len());
    for (a, b) in parsed.chunks().iter().zip(p.chunks().iter()) {
        assert_eq!(a.chunk_type().bytes(), b.chunk_type().bytes());
        assert_eq!(a.data(), b.data());
        assert_eq!(a.length(), b.length());
        assert_eq!(a.crc(), b.crc());
    }
    assert_eq!(parsed.as_bytes(), bytes);
}

#[test]
fn empty_container_round_trip() {
    let p = PNG::from_chunks(Vec::new());
    let bytes = p.as_bytes();
    assert_eq!(bytes, standard_header().to_vec());
    let parsed = PNG::parse(bytes.as_slice()).unwrap();
    assert_eq!(parsed.chunks().len(), 0);
}

#[test]
fn bad_signature_is_rejected_regardless_of_rest() {
    let mut bytes: Vec<u8> = vec![1, 2, 3, 4, 5, 6, 7, 8];
    bytes.extend(chunk_of("RuSt", b"hello").as_bytes());
    assert!(matches!(
        PNG::parse(bytes.as_slice()),
        Err(PngError::BadSignature)
    ));
    let only_bad: Vec<u8> = vec![1, 2, 3, 4, 5, 6, 7, 8];
    assert!(matches!(
        PNG::parse(only_bad.as_slice()),
        Err(PngError::BadSignature)
    ));
}

#[test]
fn short_input_is_eof() {
    let bytes: Vec<u8> = vec![0x89, 0x50, 0x4E];
    assert!(matches!(
        PNG::parse(bytes.as_slice()),
        Err(PngError::UnexpectedEof)
    ));
}

#[test]
fn chunk_failure_aborts_container_parse() {
    let p = testing_png();
    let mut bytes = p.as_bytes();
    // Corrupt one data byte of the second chunk (8 signature bytes, then
    // 12 + 20 bytes of the first chunk, then 8 header bytes of the second).
    bytes[8 + 32 + 8] ^= 0x40;
    assert!(matches!(
        PNG::parse(bytes.as_slice()),
        Err(PngError::CrcMismatch)
    ));
    // Truncate inside the last chunk.
    let cut = p.as_bytes();
    assert!(matches!(
        PNG::parse(&cut[..cut.len() - 2]),
        Err(PngError::UnexpectedEof)
    ));
}

#[test]
fn append_inserts_before_last_chunk() {
    let mut p = testing_png();
    p.append_chunk(chunk_of("TeSt", b"tucked in"));
    let codes: Vec<[u8; 4]> = p.chunks().iter().map(|c| c.chunk_type().bytes()).collect();
    assert_eq!(codes, vec![*b"FrSt", *b"miDl", *b"TeSt", *b"LASt"]);
}

#[test]
fn append_to_empty_container() {
    let mut p = PNG::from_chunks(Vec::new());
    p.append_chunk(chunk_of("TeSt", b"alone"));
    assert_eq!(p.chunks().len(), 1);
    assert_eq!(p.chunks()[0].chunk_type().bytes(), *b"TeSt");
}

#[test]
fn append_then_remove_restores_sequence() {
    let mut p = testing_png();
    let before = p.as_bytes();
    p.append_chunk(chunk_of("TeSt", b"transient"));
    let removed = p.remove_chunk("TeSt").unwrap();
    assert_eq!(removed.data(), b"transient");
    assert_eq!(p.as_bytes(), before);
}

#[test]
fn remove_takes_the_first_match_only() {
    let mut p = PNG::from_chunks(vec![
        chunk_of("FrSt", b"keep me"),
        chunk_of("TeSt", b"first"),
        chunk_of("TeSt", b"second"),
    ]);
    let removed = p.remove_chunk("TeSt").unwrap();
    assert_eq!(removed.data(), b"first");
    assert_eq!(p.chunks().len(), 2);
    assert_eq!(p.chunks()[1].data(), b"second");
}

#[test]
fn remove_reports_not_found() {
    let mut p = testing_png();
    assert!(matches!(p.remove_chunk("TeSt"), Err(PngError::NotFound)));
    assert_eq!(p.chunks().len(), 3);
}

#[test]
fn remove_rejects_bad_type_string() {
    let mut p = testing_png();
    assert!(matches!(
        p.remove_chunk("ab"),
        Err(PngError::InvalidTypeCode)
    ));
    assert!(matches!(
        p.remove_chunk("a1cd"),
        Err(PngError::InvalidTypeCode)
    ));
}

#[test]
fn lookup_finds_first_match() {
    let p = testing_png();
    let c = p.chunk_by_type("miDl").unwrap();
    assert_eq!(c.data(), b"I am another chunk");
}

#[test]
fn lookup_returns_nothing_quietly() {
    let p = testing_png();
    assert!(p.chunk_by_type("TeSt").is_none());
    // A string the type constructor refuses yields nothing, not an error.
    assert!(p.chunk_by_type("ab").is_none());
    assert!(p.chunk_by_type("a1cd").is_none());
}

#[test]
fn hidden_message_survives_a_full_cycle() {
    let mut p = PNG::from_chunks(vec![
        chunk_of("IHDR", b"not a real header"),
        chunk_of("IEND", &[]),
    ]);
    p.append_chunk(chunk_of("ruSt", b"this is a secret message"));
    let bytes = p.as_bytes();
    let parsed = PNG::parse(bytes.as_slice()).unwrap();
    let found = parsed.chunk_by_type("ruSt").unwrap();
    assert_eq!(found.data_as_string().unwrap(), "this is a secret message");
    // The terminal chunk kept its tail position.
    let last = parsed.chunks().last().unwrap();
    assert_eq!(last.chunk_type().bytes(), *b"IEND");
}
