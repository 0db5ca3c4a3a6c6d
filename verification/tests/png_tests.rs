use pngme::chunk::Chunk;
use pngme::chunk_type::ChunkType;
use pngme::png::{signature, Png};
use pngme::PngError;

fn chunk_from(type_text: &str, data: &[u8]) -> Chunk {
    Chunk::new(ChunkType::from_str(type_text).unwrap(), data.to_vec())
}

// A minimal valid file: the signature, one ordinary chunk, and one empty
// terminal-marker chunk last.
fn minimal_buffer() -> Vec<u8> {
    let mut buf = signature().to_vec();
    buf.extend(chunk_from("FrSt", b"I am the first chunk").as_bytes());
    buf.extend(chunk_from("IEND", b"").as_bytes());
    buf
}

// Parsing a minimal valid buffer and serializing the container again
// reproduces the buffer byte for byte.
#[test]
fn test_png_parse_serialize_round_trip() {
    let buf = minimal_buffer();
    let png = Png::try_from(buf.as_slice()).unwrap();
    assert_eq!(png.chunks().len(), 2);
    assert_eq!(png.as_bytes(), buf);
}

#[test]
fn test_png_bad_signature() {
    let mut buf = minimal_buffer();
    buf[0] = 0x88;
    assert!(matches!(Png::try_from(buf.as_slice()), Err(PngError::BadSignature)));
    assert!(matches!(Png::try_from(&buf[0..5]), Err(PngError::BadSignature)));
}

#[test]
fn test_png_truncated_chunk() {
    let buf = minimal_buffer();
    assert!(matches!(Png::try_from(&buf[0..buf.len() - 2]), Err(PngError::Truncated)));
}

#[test]
fn test_png_corrupt_chunk_fails_parse() {
    let mut buf = minimal_buffer();
    let i = buf.len() - 5;
    buf[i] ^= 0x01;
    assert!(matches!(Png::try_from(buf.as_slice()), Err(PngError::ChecksumMismatch)));
}

#[test]
fn test_png_append_chunk() {
    let buf = minimal_buffer();
    let mut png = Png::try_from(buf.as_slice()).unwrap();
    png.append_chunk(chunk_from("TeSt", b"Message"));
    let chunk = png.chunk_by_type("TeSt").unwrap();
    assert_eq!(&chunk.data_as_string().unwrap(), "Message");
    assert_eq!(png.chunks().len(), 3);
}

#[test]
fn test_png_chunk_by_type_finds_first() {
    let mut buf = minimal_buffer();
    buf.extend(chunk_from("TeSt", b"first").as_bytes());
    buf.extend(chunk_from("TeSt", b"second").as_bytes());
    let png = Png::try_from(buf.as_slice()).unwrap();
    let chunk = png.chunk_by_type("TeSt").unwrap();
    assert_eq!(&chunk.data_as_string().unwrap(), "first");
}

#[test]
fn test_png_chunk_by_type_absent() {
    let buf = minimal_buffer();
    let png = Png::try_from(buf.as_slice()).unwrap();
    assert!(png.chunk_by_type("TeSt").is_none());
}

#[test]
fn test_png_remove_chunk() {
    let mut buf = minimal_buffer();
    buf.extend(chunk_from("TeSt", b"gone soon").as_bytes());
    let mut png = Png::try_from(buf.as_slice()).unwrap();
    let removed = png.remove_chunk("TeSt").unwrap();
    assert_eq!(&removed.data_as_string().unwrap(), "gone soon");
    assert!(png.chunk_by_type("TeSt").is_none());
    assert_eq!(png.as_bytes(), minimal_buffer());
}

// Removing a type that is absent fails with NotFound and leaves the
// container's chunk sequence unchanged.
#[test]
fn test_png_remove_absent_chunk() {
    let buf = minimal_buffer();
    let mut png = Png::try_from(buf.as_slice()).unwrap();
    assert!(matches!(png.remove_chunk("TeSt"), Err(PngError::NotFound)));
    assert_eq!(png.as_bytes(), buf);
}

// Removing only takes the first of two equal-typed chunks; the later one
// stays.
#[test]
fn test_png_remove_keeps_later_duplicate() {
    let mut buf = minimal_buffer();
    buf.extend(chunk_from("TeSt", b"first").as_bytes());
    buf.extend(chunk_from("TeSt", b"second").as_bytes());
    let mut png = Png::try_from(buf.as_slice()).unwrap();
    let removed = png.remove_chunk("TeSt").unwrap();
    assert_eq!(&removed.data_as_string().unwrap(), "first");
    let left = png.chunk_by_type("TeSt").unwrap();
    assert_eq!(&left.data_as_string().unwrap(), "second");
}

#[test]
fn test_png_signature_is_standard() {
    assert_eq!(signature(), [0x89, 0x50, 0x4e, 0x47, 0x0d, 0x0a, 0x1a, 0x0a]);
}

// An empty chunk stream after the signature is a valid container with no
// chunks.
#[test]
fn test_png_signature_only() {
    let png = Png::try_from(&signature()[..]).unwrap();
    assert_eq!(png.chunks().len(), 0);
    assert_eq!(png.as_bytes(), signature().to_vec());
}
