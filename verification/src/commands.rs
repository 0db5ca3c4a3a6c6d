//! The compute halves of the user-facing actions: each takes the bytes of a
//! PNG file and plain values, and returns the bytes to write back. Reading
//! and writing files is the caller's business.

use crate::chunk::{Chunk, ChunkModel};
use crate::chunk_type::{is_digit_byte, is_letter_byte, ChunkType};
use crate::crc::spec_crc32;
use crate::png::{spec_first_match, spec_parse_png, spec_serialize_png, Png};
use crate::PngError;
use vstd::prelude::*;

verus! {

/// What encoding returns: parse the buffer, build a chunk from the type text
/// and message, append it, and serialize; the first failure is returned.
pub open spec fn spec_encode(png_bytes: Seq<u8>, type_text: Seq<char>, message: Seq<u8>) -> Result<
    Seq<u8>,
    PngError,
> {
    match spec_parse_png(png_bytes) {
        Err(e) => Err(e),
        Ok(ms) => match ChunkType::spec_from_str(type_text) {
            Err(e) => Err(e),
            Ok(t) => Ok(
                spec_serialize_png(
                    ms.push(
                        ChunkModel {
                            chunk_type: t,
                            data: message,
                            crc: spec_crc32(t.spec_bytes() + message),
                        },
                    ),
                ),
            ),
        },
    }
}

/// Embeds a message in a PNG file: parses `png_bytes`, appends a fresh chunk
/// built from `type_text` and `message`, and returns the new file's bytes.
pub fn action_encode(png_bytes: &[u8], type_text: &str, message: Vec<u8>) -> (r: Result<
    Vec<u8>,
    PngError,
>)
    requires
        message@.len() <= u32::MAX,
    ensures
        match r {
            Ok(out) => spec_encode(png_bytes@, type_text@, message@) == Ok::<Seq<u8>, PngError>(
                out@,
            ),
            Err(e) => spec_encode(png_bytes@, type_text@, message@) == Err::<Seq<u8>, PngError>(e),
        },
{
    let mut png = match Png::try_from(png_bytes) {
        Ok(p) => p,
        Err(e) => {
            return Err(e);
        },
    };
    let t = match ChunkType::from_str(type_text) {
        Ok(t) => t,
        Err(e) => {
            return Err(e);
        },
    };
    proof {
        assert forall|b: u8| is_letter_byte(b) implies !is_digit_byte(b) by {}
    }
    let chunk = Chunk::new(t, message);
    png.append_chunk(chunk);
    Ok(png.as_bytes())
}

/// What removal returns: parse the buffer, remove the first chunk of the
/// requested type, and serialize; `NotFound` when no chunk matches.
pub open spec fn spec_remove(png_bytes: Seq<u8>, type_text: Seq<char>) -> Result<
    Seq<u8>,
    PngError,
> {
    match spec_parse_png(png_bytes) {
        Err(e) => Err(e),
        Ok(ms) => {
            let k = spec_first_match(ms, type_text);
            if k == ms.len() {
                Err(PngError::NotFound)
            } else {
                Ok(spec_serialize_png(ms.remove(k)))
            }
        },
    }
}

/// Removes a hidden message from a PNG file: parses `png_bytes`, removes the
/// first chunk whose type code's text form is `type_text`, and returns the
/// new file's bytes.
pub fn action_remove(png_bytes: &[u8], type_text: &str) -> (r: Result<Vec<u8>, PngError>)
    ensures
        match r {
            Ok(out) => spec_remove(png_bytes@, type_text@) == Ok::<Seq<u8>, PngError>(out@),
            Err(e) => spec_remove(png_bytes@, type_text@) == Err::<Seq<u8>, PngError>(e),
        },
{
    let mut png = match Png::try_from(png_bytes) {
        Ok(p) => p,
        Err(e) => {
            return Err(e);
        },
    };
    match png.remove_chunk(type_text) {
        Ok(_) => (),
        Err(e) => {
            return Err(e);
        },
    }
    Ok(png.as_bytes())
}

} // verus!
