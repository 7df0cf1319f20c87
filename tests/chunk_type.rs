use pngme::chunk_type::{ChunkType, ChunkTypeError};
use std::convert::TryFrom;
use std::str::FromStr;

#[test]
pub fn test_chunk_type_from_bytes() {
    let expected = [82, 117, 83, 116];
    let actual = ChunkType::try_from([82, 117, 83, 116]).unwrap();

    assert_eq!(expected, actual.bytes());
}

#[test]
pub fn test_chunk_type_from_str() {
    let expected = ChunkType::try_from([82, 117, 83, 116]).unwrap();
    let actual = ChunkType::from_str("RuSt").unwrap();
    assert_eq!(expected, actual);
}

#[test]
pub fn test_chunk_type_is_critical() {
    let chunk = ChunkType::from_str("RuSt").unwrap();
    assert!(chunk.is_critical());
}

#[test]
pub fn test_chunk_type_is_not_critical() {
    let chunk = ChunkType::from_str("ruSt").unwrap();
    assert!(!chunk.is_critical());
}

#[test]
pub fn test_chunk_type_is_public() {
    let chunk = ChunkType::from_str("RUSt").unwrap();
    assert!(chunk.is_public());
}

#[test]
pub fn test_chunk_type_is_not_public() {
    let chunk = ChunkType::from_str("RuSt").unwrap();
    assert!(!chunk.is_public());
}

#[test]
pub fn test_chunk_type_is_reserved_bit_valid() {
    let chunk = ChunkType::from_str("RuSt").unwrap();
    assert!(chunk.is_reserved_bit_valid());
}

#[test]
pub fn test_chunk_type_is_reserved_bit_invalid() {
    let chunk = ChunkType::from_str("Rust").unwrap();
    assert!(!chunk.is_reserved_bit_valid());
}

#[test]
pub fn test_chunk_type_is_safe_to_copy() {
    let chunk = ChunkType::from_str("RuSt").unwrap();
    assert!(chunk.is_safe_to_copy());
}

#[test]
pub fn test_chunk_type_is_unsafe_to_copy() {
    let chunk = ChunkType::from_str("RuST").unwrap();
    assert!(!chunk.is_safe_to_copy());
}

#[test]
pub fn test_valid_chunk_is_valid() {
    let chunk = ChunkType::from_str("RuSt").unwrap();
    assert!(chunk.is_valid());
}

#[test]
pub fn test_invalid_chunk_is_valid() {
    let chunk = ChunkType::from_str("Rust").unwrap();
    assert!(!chunk.is_valid());

    let chunk = ChunkType::from_str("Ru1t");
    assert!(chunk.is_err());
}

#[test]
pub fn test_chunk_type_string() {
    let chunk = ChunkType::from_str("RuSt").unwrap();
    assert_eq!(&chunk.to_string(), "RuSt");
}

#[test]
pub fn test_chunk_type_trait_impls() {
    let chunk_type_1: ChunkType = TryFrom::try_from([82, 117, 83, 116]).unwrap();
    let chunk_type_2: ChunkType = FromStr::from_str("RuSt").unwrap();
    let _chunk_string = chunk_type_1.to_string();
    let _are_chunks_equal = chunk_type_1 == chunk_type_2;
}

#[test]
fn rust_flags_from_bytes() {
    let t = ChunkType::try_from([82, 117, 83, 116]).unwrap();
    assert!(t.is_critical());
    assert!(!t.is_public());
    assert!(t.is_reserved_bit_valid());
    assert!(t.is_safe_to_copy());
    assert!(t.is_valid());
}

#[test]
fn lowercase_reserved_letter_builds_but_is_not_valid() {
    let t = ChunkType::from_str("Rust").unwrap();
    assert!(!t.is_reserved_bit_valid());
    assert!(!t.is_valid());
    assert_eq!(t.bytes(), [82, 117, 115, 116]);
}

#[test]
fn digit_in_code_is_non_alphabetic() {
    assert_eq!(ChunkType::from_str("Ru1t"), Err(ChunkTypeError::NonAlphabetic));
    assert_eq!(ChunkType::try_from([82, 117, 49, 116]), Err(ChunkTypeError::NonAlphabetic));
}

#[test]
fn bytes_outside_letter_ranges_are_refused() {
    assert_eq!(ChunkType::try_from([64, 65, 65, 65]), Err(ChunkTypeError::NonAlphabetic));
    assert_eq!(ChunkType::try_from([91, 65, 65, 65]), Err(ChunkTypeError::NonAlphabetic));
    assert_eq!(ChunkType::try_from([96, 65, 65, 65]), Err(ChunkTypeError::NonAlphabetic));
    assert_eq!(ChunkType::try_from([123, 65, 65, 65]), Err(ChunkTypeError::NonAlphabetic));
    assert!(ChunkType::try_from([65, 90, 97, 122]).is_ok());
}

#[test]
fn wrong_length_text_is_refused() {
    assert_eq!(ChunkType::from_str("RuS"), Err(ChunkTypeError::InvalidLength));
    assert_eq!(ChunkType::from_str("RuStt"), Err(ChunkTypeError::InvalidLength));
    assert_eq!(ChunkType::from_str(""), Err(ChunkTypeError::InvalidLength));
}

#[test]
fn length_is_counted_in_bytes() {
    // Three characters, four bytes: the length passes, the letters do not.
    assert_eq!(ChunkType::from_str("aé1"), Err(ChunkTypeError::NonAlphabetic));
    // Four characters, five bytes.
    assert_eq!(ChunkType::from_str("abcé"), Err(ChunkTypeError::InvalidLength));
}
