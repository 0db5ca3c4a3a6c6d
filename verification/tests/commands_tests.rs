use pngme::chunk::Chunk;
use pngme::chunk_type::ChunkType;
use pngme::commands::{action_encode, action_remove};
use pngme::png::{signature, Png};
use pngme::PngError;

fn chunk_from(type_text: &str, data: &[u8]) -> Chunk {
    Chunk::new(ChunkType::from_str(type_text).unwrap(), data.to_vec())
}

fn valid_container() -> Vec<u8> {
    let mut buf = signature().to_vec();
    buf.extend(chunk_from("FrSt", b"I am the first chunk").as_bytes());
    buf.extend(chunk_from("IEND", b"").as_bytes());
    buf
}

// Inserting a chunk of type "ruSt" with payload "hidden", serializing,
// re-parsing, and looking the type up again yields exactly "hidden".
#[test]
fn test_encode_then_find() {
    let original = valid_container();
    let encoded = action_encode(original.as_slice(), "ruSt", b"hidden".to_vec()).unwrap();
    let png = Png::try_from(encoded.as_slice()).unwrap();
    let chunk = png.chunk_by_type("ruSt").unwrap();
    assert_eq!(&chunk.data_as_string().unwrap(), "hidden");
}

#[test]
fn test_encode_rejects_bad_type_text() {
    let original = valid_container();
    assert_eq!(
        action_encode(original.as_slice(), "ru1t", b"hidden".to_vec()).err(),
        Some(PngError::InvalidTypeCharacter)
    );
    assert_eq!(
        action_encode(original.as_slice(), "rust!", b"hidden".to_vec()).err(),
        Some(PngError::InvalidTypeLength)
    );
}

#[test]
fn test_encode_rejects_bad_container() {
    assert_eq!(
        action_encode(b"not a png", "ruSt", b"hidden".to_vec()).err(),
        Some(PngError::BadSignature)
    );
}

// Encoding then removing the same type restores the original bytes.
#[test]
fn test_encode_then_remove_restores_container() {
    let original = valid_container();
    let encoded = action_encode(original.as_slice(), "ruSt", b"hidden".to_vec()).unwrap();
    assert_ne!(encoded, original);
    let removed = action_remove(encoded.as_slice(), "ruSt").unwrap();
    assert_eq!(removed, original);
}

#[test]
fn test_remove_absent_type() {
    let original = valid_container();
    assert_eq!(action_remove(original.as_slice(), "ruSt").err(), Some(PngError::NotFound));
}
