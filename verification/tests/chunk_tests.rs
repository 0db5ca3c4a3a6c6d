use pngme::chunk::Chunk;
use pngme::chunk_type::ChunkType;
use pngme::crc::crc32;
use pngme::PngError;

fn sample_chunk() -> Chunk {
    let chunk_type = ChunkType::from_str("ruSt").unwrap();
    let data = b"This is a secret message".to_vec();
    Chunk::new(chunk_type, data)
}

// The CRC-32 of the standard nine-digit check string is the well-known
// check value of the ISO-HDLC polynomial.
#[test]
fn test_crc32_check_value() {
    assert_eq!(crc32(b"123456789"), 0xCBF43926);
}

#[test]
fn test_crc32_empty() {
    assert_eq!(crc32(b""), 0);
}

#[test]
fn test_chunk_accessors() {
    let chunk = sample_chunk();
    assert_eq!(chunk.length(), 24);
    assert_eq!(chunk.chunk_type().bytes(), *b"ruSt");
    assert_eq!(chunk.data().as_slice(), b"This is a secret message");
    assert_eq!(chunk.crc(), crc32(b"ruStThis is a secret message"));
}

// The on-wire form is length(4) || type(4) || payload || crc(4): with a
// 24-byte payload it is 36 bytes long, and parsing it back reconstructs the
// same type code, payload and checksum.
#[test]
fn test_chunk_serialize_parse_round_trip() {
    let chunk = sample_chunk();
    let bytes = chunk.as_bytes();
    assert_eq!(bytes.len(), 4 + 4 + 24 + 4);

    let reparsed = Chunk::parse(bytes.as_slice()).unwrap();
    assert_eq!(reparsed.chunk_type().bytes(), chunk.chunk_type().bytes());
    assert_eq!(reparsed.data(), chunk.data());
    assert_eq!(reparsed.crc(), chunk.crc());
}

#[test]
fn test_chunk_serialized_layout() {
    let chunk = Chunk::new(ChunkType::from_str("TeSt").unwrap(), b"ab".to_vec());
    let bytes = chunk.as_bytes();
    assert_eq!(&bytes[0..4], &[0, 0, 0, 2]);
    assert_eq!(&bytes[4..8], b"TeSt");
    assert_eq!(&bytes[8..10], b"ab");
    let crc = crc32(b"TeStab");
    assert_eq!(&bytes[10..14], &crc.to_be_bytes());
}

// Flipping any single bit of the payload or type bytes is caught by the
// checksum (flips that turn a type byte into a digit fail earlier instead).
#[test]
fn test_bit_flip_fails_checksum() {
    let chunk = sample_chunk();
    let bytes = chunk.as_bytes();
    for i in 4..(8 + 24) {
        for bit in 0..8u8 {
            let mut corrupted = bytes.clone();
            corrupted[i] ^= 1 << bit;
            let flipped = corrupted[i];
            let expected = if (4..8).contains(&i) && flipped.is_ascii_digit() {
                PngError::DigitInType
            } else {
                PngError::ChecksumMismatch
            };
            assert_eq!(Chunk::parse(corrupted.as_slice()).err(), Some(expected));
        }
    }
}

#[test]
fn test_parse_truncated() {
    let chunk = sample_chunk();
    let bytes = chunk.as_bytes();
    assert_eq!(Chunk::parse(&bytes[0..7]).err(), Some(PngError::Truncated));
    assert_eq!(Chunk::parse(&bytes[0..bytes.len() - 1]).err(), Some(PngError::Truncated));
}

#[test]
fn test_parse_digit_in_type() {
    let chunk = Chunk::new(ChunkType::from_str("TeSt").unwrap(), b"ab".to_vec());
    let mut bytes = chunk.as_bytes();
    bytes[5] = b'3';
    assert_eq!(Chunk::parse(bytes.as_slice()).err(), Some(PngError::DigitInType));
}

#[test]
fn test_data_as_string() {
    let chunk = sample_chunk();
    assert_eq!(chunk.data_as_string().unwrap(), "This is a secret message");
}

// A payload of valid non-ASCII UTF-8 really is decoded, not handed back
// byte for byte.
#[test]
fn test_data_as_string_decodes_utf8() {
    let chunk = Chunk::new(ChunkType::from_str("TeSt").unwrap(), vec![0xc3, 0xa9]);
    let text = chunk.data_as_string().unwrap();
    assert_eq!(text, "\u{e9}");
    assert_eq!(text.chars().count(), 1);
}

#[test]
fn test_data_as_string_fails_on_invalid_utf8() {
    let chunk = Chunk::new(ChunkType::from_str("TeSt").unwrap(), vec![0xff, 0xfe]);
    assert_eq!(chunk.data_as_string(), Err(PngError::NotText));
}
