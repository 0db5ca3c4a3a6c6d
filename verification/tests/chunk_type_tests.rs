use pngme::chunk_type::ChunkType;
use pngme::PngError;

#[test]
fn test_chunk_type_from_bytes() {
    let expected = [82, 117, 83, 116];
    let actual = ChunkType::try_from([82, 117, 83, 116]).unwrap();

    assert_eq!(expected, actual.bytes());
}

#[test]
fn test_chunk_type_from_str() {
    let expected = ChunkType::try_from([82, 117, 83, 116]).unwrap();
    let actual = ChunkType::from_str("RuSt").unwrap();
    assert_eq!(expected, actual);
}

#[test]
fn test_chunk_type_is_critical() {
    let chunk = ChunkType::from_str("RuSt").unwrap();
    assert!(chunk.is_critical());
}

#[test]
fn test_chunk_type_is_not_critical() {
    let chunk = ChunkType::from_str("ruSt").unwrap();
    assert!(!chunk.is_critical());
}

#[test]
fn test_chunk_type_is_public() {
    let chunk = ChunkType::from_str("RUSt").unwrap();
    assert!(chunk.is_public());
}

#[test]
fn test_chunk_type_is_not_public() {
    let chunk = ChunkType::from_str("RuSt").unwrap();
    assert!(!chunk.is_public());
}

#[test]
fn test_chunk_type_is_reserved_bit_valid() {
    let chunk = ChunkType::from_str("RuSt").unwrap();
    assert!(chunk.is_reserved_bit_valid());
}

#[test]
fn test_chunk_type_is_reserved_bit_invalid() {
    let chunk = ChunkType::from_str("Rust").unwrap();
    assert!(!chunk.is_reserved_bit_valid());
}

#[test]
fn test_chunk_type_is_safe_to_copy() {
    let chunk = ChunkType::from_str("RuSt").unwrap();
    assert!(chunk.is_safe_to_copy());
}

#[test]
fn test_chunk_type_is_unsafe_to_copy() {
    let chunk = ChunkType::from_str("RuST").unwrap();
    assert!(!chunk.is_safe_to_copy());
}

#[test]
fn test_valid_chunk_is_valid() {
    let chunk = ChunkType::from_str("RuSt").unwrap();
    assert!(chunk.is_valid());
}

#[test]
fn test_invalid_chunk_is_valid() {
    let chunk = ChunkType::from_str("Rust").unwrap();
    assert!(!chunk.is_valid());

    let chunk = ChunkType::from_str("Ru1t");
    assert!(chunk.is_err());
}

#[test]
fn test_chunk_type_string() {
    let chunk = ChunkType::from_str("RuSt").unwrap();
    assert_eq!(&chunk.to_text().unwrap(), "RuSt");
}

#[test]
fn test_chunk_type_trait_impls() {
    let chunk_type_1: ChunkType = ChunkType::try_from([82, 117, 83, 116]).unwrap();
    let chunk_type_2: ChunkType = ChunkType::from_str("RuSt").unwrap();
    let _chunk_string = chunk_type_1.to_text().unwrap();
    let _are_chunks_equal = chunk_type_1 == chunk_type_2;
}

// Bytes that are not letters, as long as they are not digits, are accepted by
// the byte-level constructor and returned unchanged.
#[test]
fn test_from_bytes_accepts_non_letters_and_round_trips() {
    let raw = [82, 33, 83, 116];
    let chunk = ChunkType::try_from(raw).unwrap();
    assert_eq!(raw, chunk.bytes());
    assert!(!chunk.is_valid());
}

#[test]
fn test_from_bytes_rejects_digits() {
    assert_eq!(ChunkType::try_from([82, 117, 53, 116]), Err(PngError::DigitInType));
}

// The text and byte constructors agree on four-letter ASCII input.
#[test]
fn test_text_and_bytes_constructors_agree() {
    let from_text = ChunkType::from_str("AbCd").unwrap();
    let from_bytes = ChunkType::try_from([65, 98, 67, 100]).unwrap();
    assert_eq!(from_text, from_bytes);
    assert_eq!(&from_text.to_text().unwrap(), "AbCd");
}

#[test]
fn test_from_str_rejects_wrong_length() {
    assert_eq!(ChunkType::from_str("abc"), Err(PngError::InvalidTypeLength));
    assert_eq!(ChunkType::from_str("abcde"), Err(PngError::InvalidTypeLength));
    assert_eq!(ChunkType::from_str(""), Err(PngError::InvalidTypeLength));
}

#[test]
fn test_from_str_rejects_non_letter() {
    assert_eq!(ChunkType::from_str("Ru1t"), Err(PngError::InvalidTypeCharacter));
    assert_eq!(ChunkType::from_str("Ru t"), Err(PngError::InvalidTypeCharacter));
}

// The four flags read the case of bytes 0 to 3 respectively: "RuSt" sets
// critical (upper R), private (lower u), reserved-bit-valid (upper S) and
// safe-to-copy (lower t).
#[test]
fn test_flags_follow_byte_case() {
    let chunk = ChunkType::try_from([82, 117, 83, 116]).unwrap();
    assert!(chunk.is_critical());
    assert!(!chunk.is_public());
    assert!(chunk.is_reserved_bit_valid());
    assert!(chunk.is_safe_to_copy());
}

#[test]
fn test_to_text_fails_on_non_utf8_bytes() {
    let chunk = ChunkType::try_from([0xff, 117, 83, 116]).unwrap();
    assert_eq!(chunk.to_text(), Err(PngError::NotText));
}
