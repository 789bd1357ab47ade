use pngme::chunk_type::ChunkType;
use pngme::error::ChunkError;
use std::convert::TryFrom;
use std::str::FromStr;

#[test]
pub fn test_chunk_type_from_bytes() {
    let expected = [82, 117, 83, 116];
    let actual = ChunkType::try_from([82, 117, 83, 116]).unwrap();

    assert_eq!(expected, actual.bytes());
}

#[test]
pub fn test_chunk_type_from_str() {
    let expected = ChunkType::try_from([82, 117, 83, 116]).unwrap();
    let actual = ChunkType::from_str("RuSt").unwrap();
    assert_eq!(expected, actual);
}

#[test]
pub fn test_chunk_type_is_critical() {
    let chunk = ChunkType::from_str("RuSt").unwrap();
    assert!(chunk.is_critical());
}

#[test]
pub fn test_chunk_type_is_not_critical() {
    let chunk = ChunkType::from_str("ruSt").unwrap();
    assert!(!chunk.is_critical());
}

#[test]
pub fn test_chunk_type_is_public() {
    let chunk = ChunkType::from_str("RUSt").unwrap();
    assert!(chunk.is_public());
}

#[test]
pub fn test_chunk_type_is_not_public() {
    let chunk = ChunkType::from_str("RuSt").unwrap();
    assert!(!chunk.is_public());
}

#[test]
pub fn test_chunk_type_is_reserved_bit_valid() {
    let chunk = ChunkType::from_str("RuSt").unwrap();
    assert!(chunk.is_reserved_bit_valid());
}

#[test]
pub fn test_chunk_type_is_reserved_bit_invalid() {
    let chunk = ChunkType::from_str("Rust").unwrap();
    assert!(!chunk.is_reserved_bit_valid());
}

#[test]
pub fn test_chunk_type_is_safe_to_copy() {
    let chunk = ChunkType::from_str("RuSt").unwrap();
    assert!(chunk.is_safe_to_copy());
}

#[test]
pub fn test_chunk_type_is_unsafe_to_copy() {
    let chunk = ChunkType::from_str("RuST").unwrap();
    assert!(!chunk.is_safe_to_copy());
}

#[test]
pub fn test_valid_chunk_is_valid() {
    let chunk = ChunkType::from_str("RuSt").unwrap();
    assert!(chunk.is_valid());
}

#[test]
pub fn test_invalid_chunk_is_valid() {
    let chunk = ChunkType::from_str("Rust").unwrap();
    assert!(!chunk.is_valid());

    let chunk = ChunkType::from_str("Ru1t");
    assert!(chunk.is_err());
}

#[test]
pub fn test_chunk_type_string() {
    let chunk = ChunkType::from_str("RuSt").unwrap();
    assert_eq!(&chunk.to_string(), "RuSt");
}

#[test]
pub fn test_chunk_type_trait_impls() {
    let chunk_type_1: ChunkType = TryFrom::try_from([82, 117, 83, 116]).unwrap();
    let chunk_type_2: ChunkType = FromStr::from_str("RuSt").unwrap();
    let _chunk_string = chunk_type_1.to_string();
    let _are_chunks_equal = chunk_type_1 == chunk_type_2;
}

#[test]
fn rust_is_built_but_invalid() {
    let chunk = ChunkType::from_text("RuSt").unwrap();
    assert!(chunk.is_critical());
    assert!(!chunk.is_public());
    assert!(chunk.is_reserved_bit_valid());
    assert!(chunk.is_safe_to_copy());
    assert!(chunk.is_valid());

    let lower = ChunkType::from_text("ruSt").unwrap();
    assert!(!lower.is_critical());

    let reserved_lower = ChunkType::from_text("Rust").unwrap();
    assert!(!reserved_lower.is_reserved_bit_valid());
    assert!(!reserved_lower.is_valid());
    assert_eq!(reserved_lower.to_string(), "ChunkType is invalid");

    assert_eq!(ChunkType::from_text("Ru1t"), Err(ChunkError::InvalidTypeCode));
}

#[test]
fn from_text_refuses_wrong_lengths() {
    assert_eq!(ChunkType::from_text(""), Err(ChunkError::InvalidTypeCode));
    assert_eq!(ChunkType::from_text("RuS"), Err(ChunkError::InvalidTypeCode));
    assert_eq!(ChunkType::from_text("RuStX"), Err(ChunkError::InvalidTypeCode));
    assert_eq!(ChunkType::from_text("Ru\u{e9}"), Err(ChunkError::InvalidTypeCode));
}

#[test]
fn from_bytes_requires_uppercase_reserved_byte() {
    assert_eq!(ChunkType::from_bytes(*b"Rust"), Err(ChunkError::InvalidTypeCode));
    assert_eq!(ChunkType::from_bytes(*b"Ru1t"), Err(ChunkError::InvalidTypeCode));
    assert_eq!(ChunkType::from_bytes([82, 117, 83, 116]).unwrap().bytes(), *b"RuSt");
    assert_eq!(ChunkType::from_bytes(*b"IHDR").unwrap().to_string(), "IHDR");
}

#[test]
fn letter_bounds() {
    assert!(ChunkType::from_text("AZaz").is_ok());
    assert!(ChunkType::from_text("@ZSz").is_err());
    assert!(ChunkType::from_text("AZS{").is_err());
    assert!(ChunkType::from_text("A[Sa").is_err());
    assert!(ChunkType::from_text("A`Sa").is_err());
}
