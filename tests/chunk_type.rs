use pngme::{ChunkType, PngError};
use std::str::FromStr;

#[test]
pub fn test_chunk_type_from_bytes() {
    let expected = [82, 117, 83, 116];
    let actual = ChunkType::try_from([82, 117, 83, 116]).unwrap();

    assert_eq!(expected, actual.bytes());
}

#[test]
pub fn test_chunk_type_from_str() {
    let expected = ChunkType::try_from([82, 117, 83, 116]).unwrap();
    let actual = ChunkType::from_str("RuSt").unwrap();
    assert_eq!(expected, actual);
}

#[test]
pub fn test_chunk_type_is_critical() {
    let chunk = ChunkType::from_str("RuSt").unwrap();
    assert!(chunk.is_critical());
}

#[test]
pub fn test_chunk_type_is_not_critical() {
    let chunk = ChunkType::from_str("ruSt").unwrap();
    assert!(!chunk.is_critical());
}

#[test]
pub fn test_chunk_type_is_public() {
    let chunk = ChunkType::from_str("RUSt").unwrap();
    assert!(chunk.is_public());
}

#[test]
pub fn test_chunk_type_is_not_public() {
    let chunk = ChunkType::from_str("RuSt").unwrap();
    assert!(!chunk.is_public());
}

#[test]
pub fn test_chunk_type_is_reserved_bit_valid() {
    let chunk = ChunkType::from_str("RuSt").unwrap();
    assert!(chunk.is_reserved_bit_valid());
}

#[test]
pub fn test_chunk_type_is_reserved_bit_invalid() {
    let chunk = ChunkType::from_str("Rust").unwrap();
    assert!(!chunk.is_reserved_bit_valid());
}

#[test]
pub fn test_chunk_type_is_safe_to_copy() {
    let chunk = ChunkType::from_str("RuSt").unwrap();
    assert!(chunk.is_safe_to_copy());
}

#[test]
pub fn test_chunk_type_is_unsafe_to_copy() {
    let chunk = ChunkType::from_str("RuST").unwrap();
    assert!(!chunk.is_safe_to_copy());
}

#[test]
pub fn test_valid_chunk_is_valid() {
    let chunk = ChunkType::from_str("RuSt").unwrap();
    assert!(chunk.is_valid());
}

#[test]
pub fn test_invalid_chunk_is_valid() {
    let chunk = ChunkType::from_str("Rust").unwrap();
    assert!(!chunk.is_valid());

    let chunk = ChunkType::from_str("Ru1t");
    assert!(chunk.is_err());
}

#[test]
pub fn test_chunk_type_string() {
    let chunk = ChunkType::from_str("RuSt").unwrap();
    assert_eq!(&chunk.to_string(), "RuSt");
}

#[test]
pub fn test_chunk_type_trait_impls() {
    let chunk_type_1: ChunkType = ChunkType::try_from([82, 117, 83, 116]).unwrap();
    let chunk_type_2: ChunkType = FromStr::from_str("RuSt").unwrap();
    let _chunk_string = chunk_type_1.to_string();
    let _are_chunks_equal = chunk_type_1 == chunk_type_2;
}

#[test]
fn type_code_text_round_trips() {
    for s in ["RuSt", "ruSt", "IHDR", "abcd", "ZZZZ"] {
        assert_eq!(ChunkType::from_str(s).unwrap().to_string(), s);
    }
}

#[test]
fn type_code_rejects_non_letters_and_wrong_lengths() {
    assert_eq!(ChunkType::from_str("Ru1t"), Err(PngError::InvalidTypeCode));
    assert_eq!(ChunkType::from_str("Ru"), Err(PngError::InvalidTypeCode));
    assert_eq!(ChunkType::from_str(""), Err(PngError::InvalidTypeCode));
    assert_eq!(ChunkType::from_str("RuStX"), Err(PngError::InvalidTypeCode));
    assert_eq!(ChunkType::from_str("R@St"), Err(PngError::InvalidTypeCode));
    assert_eq!(ChunkType::from_str("R[St"), Err(PngError::InvalidTypeCode));
    assert_eq!(ChunkType::try_from([82, 117, 49, 116]), Err(PngError::InvalidTypeCode));
    assert_eq!(ChunkType::try_from([65, 90, 97, 122]).unwrap().bytes(), [65, 90, 97, 122]);
}

#[test]
fn validity_follows_third_letter_only() {
    assert!(ChunkType::from_str("ruSt").unwrap().is_valid());
    assert!(ChunkType::from_str("rust".to_uppercase().as_str()).unwrap().is_valid());
    assert!(!ChunkType::from_str("RUsT").unwrap().is_valid());
}
