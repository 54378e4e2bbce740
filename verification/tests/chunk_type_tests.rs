use pngme::chunk_type::ChunkType;
use pngme::PngmeError;

#[test]
pub fn test_chunk_type_from_bytes() {
    let expected = [82, 117, 83, 116];
    let actual = ChunkType::from_bytes([82, 117, 83, 116]);

    assert_eq!(expected, actual.bytes());
}

#[test]
pub fn test_chunk_type_from_str() {
    let expected = ChunkType::from_bytes([82, 117, 83, 116]);
    let actual = ChunkType::from_str("RuSt").unwrap();
    assert_eq!(expected, actual);
}

#[test]
pub fn test_chunk_type_is_critical() {
    let chunk = ChunkType::from_str("RuSt").unwrap();
    assert!(chunk.is_critical());
}

#[test]
pub fn test_chunk_type_is_not_critical() {
    let chunk = ChunkType::from_str("ruSt").unwrap();
    assert!(!chunk.is_critical());
}

#[test]
pub fn test_chunk_type_is_public() {
    let chunk = ChunkType::from_str("RUSt").unwrap();
    assert!(chunk.is_public());
}

#[test]
pub fn test_chunk_type_is_not_public() {
    let chunk = ChunkType::from_str("RuSt").unwrap();
    assert!(!chunk.is_public());
}

#[test]
pub fn test_chunk_type_is_reserved_bit_valid() {
    let chunk = ChunkType::from_str("RuSt").unwrap();
    assert!(chunk.is_reserved_bit_valid());
}

#[test]
pub fn test_chunk_type_is_reserved_bit_invalid() {
    let chunk = ChunkType::from_str("Rust").unwrap();
    assert!(!chunk.is_reserved_bit_valid());
}

#[test]
pub fn test_chunk_type_is_safe_to_copy() {
    let chunk = ChunkType::from_str("RuSt").unwrap();
    assert!(chunk.is_safe_to_copy());
}

#[test]
pub fn test_chunk_type_is_unsafe_to_copy() {
    let chunk = ChunkType::from_str("RuST").unwrap();
    assert!(!chunk.is_safe_to_copy());
}

#[test]
pub fn test_valid_chunk_is_valid() {
    let chunk = ChunkType::from_str("RuSt").unwrap();
    assert!(chunk.is_valid());
}

#[test]
pub fn test_invalid_chunk_is_valid() {
    let chunk = ChunkType::from_str("Rust").unwrap();
    assert!(!chunk.is_valid());

    let chunk = ChunkType::from_str("Ru1t");
    assert!(chunk.is_err());
}

#[test]
pub fn test_chunk_type_string() {
    let chunk = ChunkType::from_str("RuSt").unwrap();
    assert_eq!(&chunk.to_text().unwrap(), "RuSt");
}

#[test]
pub fn test_chunk_type_trait_impls() {
    let chunk_type_1: ChunkType = ChunkType::from_bytes([82, 117, 83, 116]);
    let chunk_type_2: ChunkType = ChunkType::from_str("RuSt").unwrap();
    let _chunk_string = chunk_type_1.to_text().unwrap();
    let _are_chunks_equal = chunk_type_1 == chunk_type_2;
}

#[test]
pub fn test_chunk_type_from_str_rejects_non_alphabetic() {
    assert_eq!(
        ChunkType::from_str("Ru1t").unwrap_err(),
        PngmeError::InvalidChunkTypeCode
    );
    assert_eq!(
        ChunkType::from_str("Ru t").unwrap_err(),
        PngmeError::InvalidChunkTypeCode
    );
}

#[test]
pub fn test_chunk_type_from_str_rejects_short_text() {
    assert_eq!(
        ChunkType::from_str("Ru").unwrap_err(),
        PngmeError::InvalidChunkTypeCode
    );
    assert_eq!(
        ChunkType::from_str("").unwrap_err(),
        PngmeError::InvalidChunkTypeCode
    );
}

#[test]
pub fn test_chunk_type_from_str_takes_first_four_bytes() {
    let long = ChunkType::from_str("RuStier").unwrap();
    assert_eq!(long.bytes(), [82, 117, 83, 116]);
}

#[test]
pub fn test_chunk_type_to_text_rejects_invalid_utf8() {
    let raw = ChunkType::from_bytes([0xff, 0xfe, 0x80, 0x81]);
    assert_eq!(raw.to_text().unwrap_err(), PngmeError::InvalidEncoding);
}
