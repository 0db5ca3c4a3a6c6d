//! The four-byte type code of a PNG chunk.
//!
//! The case of each byte encodes one property flag: byte 0 upper-case means
//! critical, byte 1 upper-case means public, byte 2 upper-case means the
//! reserved bit is valid, and byte 3 lower-case means safe to copy.

use crate::PngError;
use vstd::prelude::*;
use vstd::utf8::{
    decode_utf8, decode_utf8_encode_utf8, encode_utf8, encode_utf8_decode_utf8,
    encode_utf8_valid_utf8, is_ascii_chars, is_ascii_chars_encode_utf8, valid_utf8,
};

verus! {

/// A byte that is an ASCII decimal digit, `'0'` to `'9'`.
pub open spec fn is_digit_byte(b: u8) -> bool {
    0x30 <= b <= 0x39
}

/// A byte that is an ASCII upper-case letter, `'A'` to `'Z'`.
pub open spec fn is_upper_byte(b: u8) -> bool {
    0x41 <= b <= 0x5a
}

/// A byte that is an ASCII lower-case letter, `'a'` to `'z'`.
pub open spec fn is_lower_byte(b: u8) -> bool {
    0x61 <= b <= 0x7a
}

/// A byte that is an ASCII letter of either case.
pub open spec fn is_letter_byte(b: u8) -> bool {
    is_upper_byte(b) || is_lower_byte(b)
}

/// A character that is an ASCII letter of either case.
pub open spec fn is_letter_char(c: char) -> bool {
    is_letter_byte(c as u8) && c as u32 <= 0x7a
}

/// The four-byte type code of a PNG chunk.
#[derive(Clone, Copy, Debug, PartialEq, Eq, Structural)]
pub struct ChunkType(pub u8, pub u8, pub u8, pub u8);

impl ChunkType {
    /// The four bytes of the code, in order, as a sequence.
    pub open spec fn spec_bytes(&self) -> Seq<u8> {
        seq![self.0, self.1, self.2, self.3]
    }

    /// Whether construction from these four bytes succeeds: none may be a digit.
    pub open spec fn spec_bytes_allowed(b0: u8, b1: u8, b2: u8, b3: u8) -> bool {
        !is_digit_byte(b0) && !is_digit_byte(b1) && !is_digit_byte(b2) && !is_digit_byte(b3)
    }

    /// What construction from four raw bytes returns: the bytes themselves,
    /// unless one of them is an ASCII digit.
    pub open spec fn spec_try_from(b: Seq<u8>) -> Result<ChunkType, PngError>
        recommends
            b.len() == 4,
    {
        if !Self::spec_bytes_allowed(b[0], b[1], b[2], b[3]) {
            Err(PngError::DigitInType)
        } else {
            Ok(ChunkType(b[0], b[1], b[2], b[3]))
        }
    }

    /// Builds a type code from four raw bytes. The only bytes rejected are
    /// ASCII digits; any other byte is accepted, letter or not.
    pub fn try_from(value: [u8; 4]) -> (r: Result<ChunkType, PngError>)
        ensures
            r == Self::spec_try_from(value@),
    {
        let mut i: usize = 0;
        while i < 4
            invariant
                i <= 4,
                forall|j: int| 0 <= j < i ==> !is_digit_byte(value@[j]),
            decreases 4 - i,
        {
            if value[i] >= 0x30 && value[i] <= 0x39 {
                return Err(PngError::DigitInType);
            }
            i = i + 1;
        }
        Ok(ChunkType(value[0], value[1], value[2], value[3]))
    }

    /// What construction from text returns: the characters' byte values,
    /// unless the text is not exactly four ASCII letters.
    pub open spec fn spec_from_str(s: Seq<char>) -> Result<ChunkType, PngError> {
        if s.len() != 4 {
            Err(PngError::InvalidTypeLength)
        } else if !(forall|j: int| 0 <= j < 4 ==> is_letter_char(s[j])) {
            Err(PngError::InvalidTypeCharacter)
        } else {
            Ok(ChunkType(s[0] as u8, s[1] as u8, s[2] as u8, s[3] as u8))
        }
    }

    /// Builds a type code from text: the string must be exactly four
    /// characters, each an ASCII letter.
    pub fn from_str(s: &str) -> (r: Result<ChunkType, PngError>)
        ensures
            r == Self::spec_from_str(s@),
    {
        if s.unicode_len() != 4 {
            return Err(PngError::InvalidTypeLength);
        }
        let mut bytes: [u8; 4] = [0; 4];
        let mut i: usize = 0;
        while i < 4
            invariant
                i <= 4,
                s@.len() == 4,
                forall|j: int| 0 <= j < i ==> is_letter_char(s@[j]),
                forall|j: int| 0 <= j < i ==> bytes@[j] == s@[j] as u8,
            decreases 4 - i,
        {
            let c = s.get_char(i);
            let code = c as u32;
            if !((code >= 0x41 && code <= 0x5a) || (code >= 0x61 && code <= 0x7a)) {
                return Err(PngError::InvalidTypeCharacter);
            }
            bytes[i] = c as u8;
            i = i + 1;
        }
        Ok(ChunkType(bytes[0], bytes[1], bytes[2], bytes[3]))
    }

    /// The four bytes of the code, in order.
    pub fn bytes(&self) -> (r: [u8; 4])
        ensures
            r@ == self.spec_bytes(),
    {
        let r = [self.0, self.1, self.2, self.3];
        proof {
            assert(r@ =~= self.spec_bytes());
        }
        r
    }

    /// A code is valid when all four bytes are ASCII letters and the reserved
    /// byte (byte 2) is upper-case.
    pub open spec fn spec_is_valid(&self) -> bool {
        is_letter_byte(self.0) && is_letter_byte(self.1) && is_letter_byte(self.2)
            && is_letter_byte(self.3) && is_upper_byte(self.2)
    }

    /// Whether the code is valid per [`Self::spec_is_valid`].
    pub fn is_valid(&self) -> (r: bool)
        ensures
            r == self.spec_is_valid(),
    {
        if self.2 >= 0x61 && self.2 <= 0x7a {
            return false;
        }
        if !Self::letter(self.0) || !Self::letter(self.1) || !Self::letter(self.2)
            || !Self::letter(self.3) {
            return false;
        }
        true
    }

    /// Whether a byte is an ASCII letter.
    fn letter(b: u8) -> (r: bool)
        ensures
            r == is_letter_byte(b),
    {
        (b >= 0x41 && b <= 0x5a) || (b >= 0x61 && b <= 0x7a)
    }

    /// The chunk is critical exactly when byte 0 is upper-case.
    pub fn is_critical(&self) -> (r: bool)
        ensures
            r == is_upper_byte(self.0),
    {
        self.0 >= 0x41 && self.0 <= 0x5a
    }

    /// The chunk is public exactly when byte 1 is upper-case.
    pub fn is_public(&self) -> (r: bool)
        ensures
            r == is_upper_byte(self.1),
    {
        self.1 >= 0x41 && self.1 <= 0x5a
    }

    /// The reserved bit is valid exactly when byte 2 is upper-case.
    pub fn is_reserved_bit_valid(&self) -> (r: bool)
        ensures
            r == is_upper_byte(self.2),
    {
        self.2 >= 0x41 && self.2 <= 0x5a
    }

    /// The chunk is safe to copy exactly when byte 3 is lower-case.
    pub fn is_safe_to_copy(&self) -> (r: bool)
        ensures
            r == is_lower_byte(self.3),
    {
        self.3 >= 0x61 && self.3 <= 0x7a
    }

    /// The four bytes rendered as text; fails with `NotText` when they are
    /// not valid UTF-8. Under either constructor's invariant the bytes are
    /// ASCII, so this cannot fail on a constructed code, but the conversion
    /// is modelled as fallible all the same.
    pub fn to_text(&self) -> (r: Result<String, PngError>)
        ensures
            r is Ok <==> valid_utf8(self.spec_bytes()),
            r matches Ok(s) ==> s@ == decode_utf8(self.spec_bytes()),
            r is Err ==> r->Err_0 == PngError::NotText,
    {
        let b = self.bytes();
        match crate::try_str_from_utf8(b.as_slice()) {
            Some(s) => {
                proof {
                    encode_utf8_decode_utf8(s@);
                }
                Ok(s.to_owned())
            },
            None => Err(PngError::NotText),
        }
    }
}

/// Whether a type code's text form is exactly `s`.
pub open spec fn spec_type_text_is(t: ChunkType, s: Seq<char>) -> bool {
    valid_utf8(t.spec_bytes()) && decode_utf8(t.spec_bytes()) == s
}

/// A type code's text form is `s` exactly when its bytes are the UTF-8
/// encoding of `s`.
pub proof fn lemma_type_text_encode(t: ChunkType, s: Seq<char>)
    ensures
        spec_type_text_is(t, s) <==> t.spec_bytes() == encode_utf8(s),
{
    if t.spec_bytes() == encode_utf8(s) {
        encode_utf8_valid_utf8(s);
        encode_utf8_decode_utf8(s);
    }
    if spec_type_text_is(t, s) {
        decode_utf8_encode_utf8(t.spec_bytes());
    }
}

/// Construction from any four non-digit bytes succeeds, and the constructed
/// code's bytes are exactly the four bytes given: a byte-level round trip.
pub proof fn lemma_bytes_round_trip(b: Seq<u8>)
    requires
        b.len() == 4,
        !is_digit_byte(b[0]),
        !is_digit_byte(b[1]),
        !is_digit_byte(b[2]),
        !is_digit_byte(b[3]),
    ensures
        ChunkType::spec_try_from(b) is Ok,
        ChunkType::spec_try_from(b)->Ok_0.spec_bytes() == b,
{
    assert(ChunkType::spec_try_from(b)->Ok_0.spec_bytes() =~= b);
}

/// An ASCII letter lies in the ASCII character range.
proof fn lemma_letter_char_is_ascii(c: char)
    requires
        is_letter_char(c),
    ensures
        '\0' <= c <= '\u{7f}',
{
}

/// For any text of exactly four ASCII letters, construction from the text
/// and construction from the text's UTF-8 bytes yield the same type code,
/// and that code's text form is the original text.
pub proof fn lemma_text_bytes_agree(s: Seq<char>)
    requires
        s.len() == 4,
        forall|j: int| 0 <= j < 4 ==> is_letter_char(#[trigger] s[j]),
    ensures
        ChunkType::spec_from_str(s) is Ok,
        ChunkType::spec_try_from(encode_utf8(s)) == ChunkType::spec_from_str(s),
        spec_type_text_is(ChunkType::spec_from_str(s)->Ok_0, s),
{
    assert(is_ascii_chars(s)) by {
        assert forall|i: int| 0 <= i < s.len() implies '\0' <= #[trigger] s[i] <= '\u{7f}' by {
            lemma_letter_char_is_ascii(s[i]);
        }
    }
    is_ascii_chars_encode_utf8(s);
    let b = encode_utf8(s);
    assert(b.len() == 4);
    assert(forall|j: int| 0 <= j < 4 ==> #[trigger] b[j] == s[j] as u8);
    let t = ChunkType::spec_from_str(s)->Ok_0;
    assert(ChunkType::spec_try_from(b) is Ok);
    assert(ChunkType::spec_try_from(b)->Ok_0 == t);
    lemma_type_text_encode(t, s);
    assert(t.spec_bytes() =~= b);
}

} // verus!
