//! A library for hiding, finding and removing messages in PNG files.
//!
//! A PNG file is modelled as a fixed eight-byte signature followed by an
//! ordered sequence of chunks. Each chunk carries a four-byte type code, an
//! opaque payload, and a CRC-32 checksum over the type code and payload.
//! This crate never interprets pixel data: it only understands the generic
//! chunk framing, which is enough to embed, extract, enumerate and remove
//! arbitrary ancillary payloads without disturbing the host image.

use vstd::prelude::*;
use vstd::string::StringSliceAdditionalSpecFns;
use vstd::utf8::valid_utf8;

pub mod args;
pub mod chunk;
pub mod chunk_type;
pub mod commands;
pub mod crc;
pub mod png;

pub use chunk::Chunk;
pub use chunk_type::ChunkType;
pub use png::Png;

verus! {

/// Every failure the library can report.
#[derive(Clone, Copy, Debug, PartialEq, Eq, Structural)]
pub enum PngError {
    /// A buffer does not start with the eight-byte PNG signature.
    BadSignature,
    /// A chunk declares more payload bytes than the buffer still holds.
    Truncated,
    /// A chunk's stored CRC-32 disagrees with the recomputed value.
    ChecksumMismatch,
    /// A type-code string holds a character that is not an ASCII letter.
    InvalidTypeCharacter,
    /// A type-code string is not exactly four characters long.
    InvalidTypeLength,
    /// A type-code byte quadruple holds an ASCII decimal digit.
    DigitInType,
    /// Bytes were asked for as text but are not valid UTF-8.
    NotText,
    /// No chunk with the requested type code exists in the container.
    NotFound,
}

/// Relies on std's `str::from_utf8`: it returns `Ok` exactly when the bytes
/// are valid UTF-8, and the string it returns borrows those same bytes.
#[verifier::external_body]
pub(crate) fn try_str_from_utf8(v: &[u8]) -> (r: Option<&str>)
    ensures
        r is Some <==> valid_utf8(v@),
        r matches Some(s) ==> s.spec_bytes() == v@,
{
    std::str::from_utf8(v).ok()
}

} // verus!
