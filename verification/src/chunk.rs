//! A single PNG chunk: a length-prefixed, checksum-protected record.
//!
//! On the wire a chunk is `length(4) || type(4) || payload(length) || crc(4)`,
//! with the two 32-bit fields big-endian and the CRC-32 taken over the type
//! bytes followed by the payload.

use crate::chunk_type::ChunkType;
use crate::crc::{crc32, lemma_crc32_detects_byte_change, spec_crc32};
use crate::PngError;
use vstd::prelude::*;
use vstd::string::StringSliceAdditionalSpecFns;
use vstd::utf8::{decode_utf8, encode_utf8_decode_utf8, valid_utf8};

verus! {

/// The big-endian four-byte encoding of a 32-bit value.
pub open spec fn spec_u32_to_be_bytes(x: u32) -> Seq<u8> {
    seq![
        ((x >> 24) & 0xff) as u8,
        ((x >> 16) & 0xff) as u8,
        ((x >> 8) & 0xff) as u8,
        (x & 0xff) as u8,
    ]
}

/// The 32-bit value read from four big-endian bytes.
pub open spec fn spec_u32_from_be_bytes(s: Seq<u8>) -> u32
    recommends
        s.len() == 4,
{
    ((s[0] as u32) << 24) | ((s[1] as u32) << 16) | ((s[2] as u32) << 8) | (s[3] as u32)
}

/// Encoding a value big-endian and reading it back returns the value.
pub proof fn lemma_u32_be_bytes_round_trip(x: u32)
    ensures
        spec_u32_from_be_bytes(spec_u32_to_be_bytes(x)) == x,
{
    assert(((((((x >> 24) & 0xff) as u8) as u32) << 24) | (((((x >> 16) & 0xff) as u8) as u32)
        << 16) | (((((x >> 8) & 0xff) as u8) as u32) << 8) | (((x & 0xff) as u8) as u32)) == x)
        by (bit_vector);
}

/// Reading four bytes big-endian and encoding the value again returns the bytes.
pub proof fn lemma_u32_be_bytes_inverse(s: Seq<u8>)
    requires
        s.len() == 4,
    ensures
        spec_u32_to_be_bytes(spec_u32_from_be_bytes(s)) == s,
{
    let b0 = s[0];
    let b1 = s[1];
    let b2 = s[2];
    let b3 = s[3];
    let x = spec_u32_from_be_bytes(s);
    assert(x == ((b0 as u32) << 24) | ((b1 as u32) << 16) | ((b2 as u32) << 8) | (b3 as u32));
    assert({
        let y = ((b0 as u32) << 24) | ((b1 as u32) << 16) | ((b2 as u32) << 8) | (b3 as u32);
        ((y >> 24) & 0xff) as u8 == b0 && ((y >> 16) & 0xff) as u8 == b1 && ((y >> 8) & 0xff) as u8
            == b2 && (y & 0xff) as u8 == b3
    }) by (bit_vector);
    assert(spec_u32_to_be_bytes(x) =~= s);
}

/// Writes a 32-bit value as four big-endian bytes.
pub fn u32_to_be_bytes(x: u32) -> (r: [u8; 4])
    ensures
        r@ == spec_u32_to_be_bytes(x),
{
    let r = [((x >> 24) & 0xff) as u8, ((x >> 16) & 0xff) as u8, ((x >> 8) & 0xff) as u8, (x
        & 0xff) as u8];
    proof {
        assert(r@ =~= spec_u32_to_be_bytes(x));
    }
    r
}

/// Reads a 32-bit value from four big-endian bytes.
pub fn u32_from_be_bytes(b0: u8, b1: u8, b2: u8, b3: u8) -> (r: u32)
    ensures
        r == spec_u32_from_be_bytes(seq![b0, b1, b2, b3]),
{
    ((b0 as u32) << 24) | ((b1 as u32) << 16) | ((b2 as u32) << 8) | (b3 as u32)
}

/// The mathematical model of a chunk: its type code, payload and stored CRC.
#[verifier::ext_equal]
pub struct ChunkModel {
    pub chunk_type: ChunkType,
    pub data: Seq<u8>,
    pub crc: u32,
}

impl ChunkModel {
    /// A well-formed chunk: its type code holds no digit byte (both type-code
    /// constructors reject digits), its payload length fits the 32-bit length
    /// field, and its stored CRC equals the CRC-32 of type bytes + payload.
    pub open spec fn wf(&self) -> bool {
        &&& ChunkType::spec_bytes_allowed(
            self.chunk_type.0,
            self.chunk_type.1,
            self.chunk_type.2,
            self.chunk_type.3,
        )
        &&& self.data.len() <= u32::MAX
        &&& self.crc == spec_crc32(self.chunk_type.spec_bytes() + self.data)
    }

    /// The on-wire form: `length(4) || type(4) || payload || crc(4)`.
    pub open spec fn serialized(&self) -> Seq<u8> {
        spec_u32_to_be_bytes(self.data.len() as u32) + self.chunk_type.spec_bytes() + self.data
            + spec_u32_to_be_bytes(self.crc)
    }

    /// Parsing a prefix of `s` as one chunk. Reads the length field, the type
    /// code (rejecting digit bytes), the payload and the stored CRC, in that
    /// order; fails with `Truncated` when `s` ends before a field does, and
    /// with `ChecksumMismatch` when the stored CRC is not the CRC-32 of the
    /// type bytes and payload. Bytes past the chunk are ignored. Opaque:
    /// proofs that step through the fields reveal it.
    #[verifier::opaque]
    pub open spec fn spec_parse(s: Seq<u8>) -> Result<ChunkModel, PngError> {
        if s.len() < 8 {
            Err(PngError::Truncated)
        } else {
            let n = spec_u32_from_be_bytes(s.subrange(0, 4)) as int;
            if !ChunkType::spec_bytes_allowed(s[4], s[5], s[6], s[7]) {
                Err(PngError::DigitInType)
            } else if s.len() < n + 12 {
                Err(PngError::Truncated)
            } else {
                let t = ChunkType(s[4], s[5], s[6], s[7]);
                let data = s.subrange(8, 8 + n);
                let stored = spec_u32_from_be_bytes(s.subrange(8 + n, 12 + n));
                if stored != spec_crc32(t.spec_bytes() + data) {
                    Err(PngError::ChecksumMismatch)
                } else {
                    Ok(ChunkModel { chunk_type: t, data, crc: stored })
                }
            }
        }
    }
}

/// A single PNG chunk.
pub struct Chunk {
    chunk_type: ChunkType,
    data: Vec<u8>,
    crc: u32,
}

impl View for Chunk {
    type V = ChunkModel;

    closed spec fn view(&self) -> ChunkModel {
        ChunkModel { chunk_type: self.chunk_type, data: self.data@, crc: self.crc }
    }
}

/// Computes the CRC-32 of a type code's four bytes followed by a payload.
fn crc_of_type_and_data(t: &ChunkType, data: &[u8]) -> (r: u32)
    ensures
        r == spec_crc32(t.spec_bytes() + data@),
{
    let tb = t.bytes();
    let mut buf: Vec<u8> = Vec::new();
    buf.push(tb[0]);
    buf.push(tb[1]);
    buf.push(tb[2]);
    buf.push(tb[3]);
    proof {
        assert(buf@ =~= t.spec_bytes() + data@.take(0));
    }
    let mut i: usize = 0;
    while i < data.len()
        invariant
            i <= data@.len(),
            buf@ == t.spec_bytes() + data@.take(i as int),
        decreases data@.len() - i,
    {
        buf.push(data[i]);
        i = i + 1;
        proof {
            assert(t.spec_bytes() + data@.take(i as int) =~= (t.spec_bytes() + data@.take(
                i as int - 1,
            )).push(data@[i as int - 1]));
        }
    }
    proof {
        assert(data@.take(data@.len() as int) =~= data@);
    }
    crc32(buf.as_slice())
}

impl Chunk {
    /// Builds a fresh chunk from a type code and a payload, computing the
    /// CRC-32 over the type bytes followed by the payload.
    pub fn new(chunk_type: ChunkType, data: Vec<u8>) -> (r: Chunk)
        requires
            data@.len() <= u32::MAX,
            ChunkType::spec_bytes_allowed(chunk_type.0, chunk_type.1, chunk_type.2, chunk_type.3),
        ensures
            r@ == (ChunkModel {
                chunk_type,
                data: data@,
                crc: spec_crc32(chunk_type.spec_bytes() + data@),
            }),
            r@.wf(),
    {
        let crc = crc_of_type_and_data(&chunk_type, data.as_slice());
        Chunk { chunk_type, data, crc }
    }

    /// The declared payload length.
    pub fn length(&self) -> (r: u32)
        requires
            self@.wf(),
        ensures
            r == self@.data.len(),
    {
        self.data.len() as u32
    }

    /// The chunk's type code.
    pub fn chunk_type(&self) -> (r: &ChunkType)
        ensures
            *r == self@.chunk_type,
    {
        &self.chunk_type
    }

    /// The chunk's payload.
    pub fn data(&self) -> (r: &Vec<u8>)
        ensures
            r@ == self@.data,
    {
        &self.data
    }

    /// The chunk's stored CRC-32.
    pub fn crc(&self) -> (r: u32)
        ensures
            r == self@.crc,
    {
        self.crc
    }

    /// The payload decoded as UTF-8 text; fails with `NotText` when the
    /// payload is not valid UTF-8.
    pub fn data_as_string(&self) -> (r: Result<String, PngError>)
        ensures
            r is Ok <==> valid_utf8(self@.data),
            r matches Ok(s) ==> s@ == decode_utf8(self@.data),
            r is Err ==> r->Err_0 == PngError::NotText,
    {
        match crate::try_str_from_utf8(self.data.as_slice()) {
            Some(s) => {
                proof {
                    encode_utf8_decode_utf8(s@);
                }
                Ok(s.to_owned())
            },
            None => Err(PngError::NotText),
        }
    }

    /// Serializes the chunk into its on-wire form.
    pub fn as_bytes(&self) -> (r: Vec<u8>)
        requires
            self@.wf(),
        ensures
            r@ == self@.serialized(),
    {
        let len_be = u32_to_be_bytes(self.data.len() as u32);
        let tb = self.chunk_type.bytes();
        let crc_be = u32_to_be_bytes(self.crc);
        let mut out: Vec<u8> = Vec::new();
        out.push(len_be[0]);
        out.push(len_be[1]);
        out.push(len_be[2]);
        out.push(len_be[3]);
        out.push(tb[0]);
        out.push(tb[1]);
        out.push(tb[2]);
        out.push(tb[3]);
        proof {
            assert(out@ =~= spec_u32_to_be_bytes(self@.data.len() as u32)
                + self@.chunk_type.spec_bytes() + self@.data.take(0));
        }
        let mut i: usize = 0;
        while i < self.data.len()
            invariant
                i <= self@.data.len(),
                out@ == spec_u32_to_be_bytes(self@.data.len() as u32)
                    + self@.chunk_type.spec_bytes() + self@.data.take(i as int),
                crc_be@ == spec_u32_to_be_bytes(self@.crc),
            decreases self@.data.len() - i,
        {
            out.push(self.data[i]);
            i = i + 1;
            proof {
                let pre = spec_u32_to_be_bytes(self@.data.len() as u32)
                    + self@.chunk_type.spec_bytes();
                assert(pre + self@.data.take(i as int) =~= (pre + self@.data.take(i as int
                    - 1)).push(self@.data[i as int - 1]));
            }
        }
        out.push(crc_be[0]);
        out.push(crc_be[1]);
        out.push(crc_be[2]);
        out.push(crc_be[3]);
        proof {
            assert(self@.data.take(self@.data.len() as int) =~= self@.data);
            assert(out@ =~= self@.serialized());
        }
        out
    }

    /// Parses one chunk from the front of `buf`, per
    /// [`ChunkModel::spec_parse`]; bytes past the chunk are ignored.
    pub fn parse(buf: &[u8]) -> (r: Result<Chunk, PngError>)
        ensures
            match r {
                Ok(c) => ChunkModel::spec_parse(buf@) == Ok::<ChunkModel, PngError>(c@)
                    && c@.wf(),
                Err(e) => ChunkModel::spec_parse(buf@) == Err::<ChunkModel, PngError>(e),
            },
    {
        proof {
            reveal(ChunkModel::spec_parse);
        }
        if buf.len() < 8 {
            return Err(PngError::Truncated);
        }
        let n32 = u32_from_be_bytes(buf[0], buf[1], buf[2], buf[3]);
        proof {
            assert(seq![buf@[0], buf@[1], buf@[2], buf@[3]] =~= buf@.subrange(0, 4));
        }
        let t = match ChunkType::try_from([buf[4], buf[5], buf[6], buf[7]]) {
            Ok(t) => t,
            Err(e) => {
                return Err(e);
            },
        };
        let n = n32 as usize;
        if buf.len() < 12 || n > buf.len() - 12 {
            return Err(PngError::Truncated);
        }
        let mut payload: Vec<u8> = Vec::new();
        let mut i: usize = 0;
        while i < n
            invariant
                i <= n,
                n + 12 <= buf@.len(),
                n + 12 <= usize::MAX,
                payload@ == buf@.subrange(8, 8 + i as int),
            decreases n - i,
        {
            payload.push(buf[8 + i]);
            i = i + 1;
            proof {
                assert(buf@.subrange(8, 8 + i as int) =~= buf@.subrange(8, 8 + i as int - 1).push(
                    buf@[8 + i as int - 1],
                ));
            }
        }
        let stored = u32_from_be_bytes(buf[8 + n], buf[9 + n], buf[10 + n], buf[11 + n]);
        proof {
            assert(seq![
                buf@[8 + n as int],
                buf@[9 + n as int],
                buf@[10 + n as int],
                buf@[11 + n as int],
            ] =~= buf@.subrange(8 + n as int, 12 + n as int));
        }
        let computed = crc_of_type_and_data(&t, payload.as_slice());
        if stored != computed {
            return Err(PngError::ChecksumMismatch);
        }
        Ok(Chunk { chunk_type: t, data: payload, crc: stored })
    }
}

/// Parsing a well-formed chunk's serialized form succeeds and reconstructs
/// the chunk exactly: the same type code, payload and CRC.
pub proof fn lemma_chunk_round_trip(m: ChunkModel)
    requires
        m.wf(),
    ensures
        ChunkModel::spec_parse(m.serialized()) == Ok::<ChunkModel, PngError>(m),
{
    lemma_chunk_round_trip_prefix(m, Seq::empty());
    assert(m.serialized() + Seq::<u8>::empty() =~= m.serialized());
}

/// Parsing reads a well-formed chunk's serialized form back exactly, whatever
/// bytes follow it.
pub proof fn lemma_chunk_round_trip_prefix(m: ChunkModel, extra: Seq<u8>)
    requires
        m.wf(),
    ensures
        ChunkModel::spec_parse(m.serialized() + extra) == Ok::<ChunkModel, PngError>(m),
{
    reveal(ChunkModel::spec_parse);
    let s = m.serialized() + extra;
    let len32 = m.data.len() as u32;
    assert(s.len() == 12 + m.data.len() + extra.len());
    assert(s.subrange(0, 4) =~= spec_u32_to_be_bytes(len32));
    lemma_u32_be_bytes_round_trip(len32);
    let n = spec_u32_from_be_bytes(s.subrange(0, 4)) as int;
    assert(n == m.data.len());
    assert(s[4] == m.chunk_type.0 && s[5] == m.chunk_type.1 && s[6] == m.chunk_type.2 && s[7]
        == m.chunk_type.3);
    assert(s.subrange(8, 8 + n) =~= m.data);
    assert(s.subrange(8 + n, 12 + n) =~= spec_u32_to_be_bytes(m.crc));
    lemma_u32_be_bytes_round_trip(m.crc);
    assert(ChunkModel::spec_parse(s)->Ok_0 =~= m);
}

/// Corrupting a single byte — for instance by flipping one of its bits — in
/// the type or payload region of a well-formed chunk's serialized form makes
/// parsing fail with `ChecksumMismatch`. The one proviso: the corruption must
/// not turn a type byte into an ASCII digit, since the type code is read
/// before the checksum and a digit there already fails with `DigitInType`.
pub proof fn lemma_corruption_detected(m: ChunkModel, s2: Seq<u8>, i: int)
    requires
        m.wf(),
        s2.len() == m.serialized().len(),
        4 <= i < 8 + m.data.len(),
        s2[i] != m.serialized()[i],
        forall|j: int| 0 <= j < s2.len() && j != i ==> s2[j] == m.serialized()[j],
        ChunkType::spec_bytes_allowed(s2[4], s2[5], s2[6], s2[7]),
    ensures
        ChunkModel::spec_parse(s2) == Err::<ChunkModel, PngError>(PngError::ChecksumMismatch),
{
    reveal(ChunkModel::spec_parse);
    let s1 = m.serialized();
    let n = m.data.len() as int;
    assert(s1.len() == 12 + n);
    assert(s2.subrange(0, 4) =~= spec_u32_to_be_bytes(m.data.len() as u32));
    lemma_u32_be_bytes_round_trip(m.data.len() as u32);
    assert(spec_u32_from_be_bytes(s2.subrange(0, 4)) as int == n);
    let t2 = ChunkType(s2[4], s2[5], s2[6], s2[7]);
    let data2 = s2.subrange(8, 8 + n);
    assert(s2.subrange(8 + n, 12 + n) =~= spec_u32_to_be_bytes(m.crc));
    lemma_u32_be_bytes_round_trip(m.crc);
    let stored2 = spec_u32_from_be_bytes(s2.subrange(8 + n, 12 + n));
    assert(stored2 == m.crc);
    let u1 = m.chunk_type.spec_bytes() + m.data;
    let u2 = t2.spec_bytes() + data2;
    assert(u1 =~= s1.subrange(4, 8 + n));
    assert(u2 =~= s2.subrange(4, 8 + n));
    assert(u1[i - 4] != u2[i - 4]);
    assert forall|k: int| 0 <= k < u1.len() && k != i - 4 implies u1[k] == u2[k] by {
        assert(u1[k] == s1[4 + k]);
        assert(u2[k] == s2[4 + k]);
    }
    lemma_crc32_detects_byte_change(u1, u2, i - 4);
    assert(spec_crc32(u2) != m.crc);
}

} // verus!
