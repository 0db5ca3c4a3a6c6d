//! The whole-file PNG container: the eight-byte signature followed by an
//! ordered sequence of chunks.

use crate::chunk::{Chunk, ChunkModel};
use crate::chunk_type::{lemma_type_text_encode, spec_type_text_is, ChunkType};
use crate::PngError;
use vstd::prelude::*;
use vstd::string::StringSliceAdditionalSpecFns;

verus! {

/// The fixed eight-byte PNG signature.
pub open spec fn spec_signature() -> Seq<u8> {
    seq![0x89u8, 0x50u8, 0x4eu8, 0x47u8, 0x0du8, 0x0au8, 0x1au8, 0x0au8]
}

/// The fixed eight-byte PNG signature.
pub fn signature() -> (r: [u8; 8])
    ensures
        r@ == spec_signature(),
{
    let r = [0x89u8, 0x50u8, 0x4eu8, 0x47u8, 0x0du8, 0x0au8, 0x1au8, 0x0au8];
    proof {
        assert(r@ =~= spec_signature());
    }
    r
}

/// The concatenation of the on-wire forms of a sequence of chunks.
pub open spec fn spec_serialize_chunks(ms: Seq<ChunkModel>) -> Seq<u8>
    decreases ms.len(),
{
    if ms.len() == 0 {
        Seq::empty()
    } else {
        ms[0].serialized() + spec_serialize_chunks(ms.drop_first())
    }
}

/// The on-wire form of a whole container: signature, then every chunk.
pub open spec fn spec_serialize_png(ms: Seq<ChunkModel>) -> Seq<u8> {
    spec_signature() + spec_serialize_chunks(ms)
}

/// Prepends already-parsed chunks to the outcome of parsing the rest.
pub open spec fn spec_prepend(ms: Seq<ChunkModel>, r: Result<Seq<ChunkModel>, PngError>) -> Result<
    Seq<ChunkModel>,
    PngError,
> {
    match r {
        Ok(rest) => Ok(ms + rest),
        Err(e) => Err(e),
    }
}

/// Parses a byte sequence as consecutive chunks until it is exhausted. Any
/// chunk failure aborts the whole parse with that chunk's error.
pub open spec fn spec_parse_chunks(s: Seq<u8>) -> Result<Seq<ChunkModel>, PngError>
    decreases s.len(),
    via spec_parse_chunks_decreases
{
    if s.len() == 0 {
        Ok(Seq::empty())
    } else {
        match ChunkModel::spec_parse(s) {
            Err(e) => Err(e),
            Ok(m) => spec_prepend(
                seq![m],
                spec_parse_chunks(s.skip(12 + m.data.len() as int)),
            ),
        }
    }
}

#[via_fn]
proof fn spec_parse_chunks_decreases(s: Seq<u8>) {
    reveal(ChunkModel::spec_parse);
}

/// Parses a whole buffer: the signature must match exactly, then the rest is
/// parsed as consecutive chunks.
pub open spec fn spec_parse_png(s: Seq<u8>) -> Result<Seq<ChunkModel>, PngError> {
    if s.len() < 8 || s.subrange(0, 8) != spec_signature() {
        Err(PngError::BadSignature)
    } else {
        spec_parse_chunks(s.skip(8))
    }
}

/// The models of a sequence of chunks.
pub open spec fn chunk_models(cs: Seq<Chunk>) -> Seq<ChunkModel> {
    cs.map(|i: int, c: Chunk| c@)
}

/// Prepending twice is prepending the concatenation.
proof fn lemma_prepend_assoc(a: Seq<ChunkModel>, b: Seq<ChunkModel>, r: Result<
    Seq<ChunkModel>,
    PngError,
>)
    ensures
        spec_prepend(a, spec_prepend(b, r)) == spec_prepend(a + b, r),
{
    match r {
        Ok(rest) => {
            assert(a + (b + rest) =~= (a + b) + rest);
        },
        Err(_) => {},
    }
}

/// Serializing one more chunk appends its on-wire form.
pub proof fn lemma_serialize_chunks_snoc(ms: Seq<ChunkModel>, m: ChunkModel)
    ensures
        spec_serialize_chunks(ms.push(m)) == spec_serialize_chunks(ms) + m.serialized(),
    decreases ms.len(),
{
    if ms.len() == 0 {
        assert(ms.push(m)[0] == m);
        assert(ms.push(m).drop_first() =~= Seq::<ChunkModel>::empty());
        assert(spec_serialize_chunks(Seq::<ChunkModel>::empty()) =~= Seq::<u8>::empty());
        assert(spec_serialize_chunks(ms.push(m)) =~= m.serialized());
        assert(spec_serialize_chunks(ms) + m.serialized() =~= m.serialized());
    } else {
        assert(ms.push(m)[0] == ms[0]);
        assert(ms.push(m).drop_first() =~= ms.drop_first().push(m));
        lemma_serialize_chunks_snoc(ms.drop_first(), m);
        assert(ms[0].serialized() + (spec_serialize_chunks(ms.drop_first()) + m.serialized()) =~= (
        ms[0].serialized() + spec_serialize_chunks(ms.drop_first())) + m.serialized());
    }
}

/// A PNG container: an ordered sequence of chunks behind the signature.
pub struct Png {
    chunks: Vec<Chunk>,
}

impl View for Png {
    type V = Seq<ChunkModel>;

    closed spec fn view(&self) -> Seq<ChunkModel> {
        chunk_models(self.chunks@)
    }
}

impl Png {
    /// Every chunk in the container is well-formed.
    pub open spec fn wf(&self) -> bool {
        forall|i: int| 0 <= i < self@.len() ==> (#[trigger] self@[i]).wf()
    }

    /// Parses a whole buffer into a container. The first eight bytes must be
    /// the PNG signature; the rest must parse as consecutive chunks that
    /// exhaust the buffer exactly. Any failure yields no container at all.
    pub fn try_from(data: &[u8]) -> (r: Result<Png, PngError>)
        ensures
            match r {
                Ok(p) => spec_parse_png(data@) == Ok::<Seq<ChunkModel>, PngError>(p@) && p.wf(),
                Err(e) => spec_parse_png(data@) == Err::<Seq<ChunkModel>, PngError>(e),
            },
    {
        if data.len() < 8 {
            return Err(PngError::BadSignature);
        }
        let sig = signature();
        let mut k: usize = 0;
        while k < 8
            invariant
                k <= 8,
                data@.len() >= 8,
                sig@ == spec_signature(),
                forall|j: int| 0 <= j < k ==> data@[j] == spec_signature()[j],
            decreases 8 - k,
        {
            if data[k] != sig[k] {
                proof {
                    assert(data@.subrange(0, 8)[k as int] != spec_signature()[k as int]);
                }
                return Err(PngError::BadSignature);
            }
            k = k + 1;
        }
        proof {
            assert(data@.subrange(0, 8) =~= spec_signature());
        }
        let mut chunks: Vec<Chunk> = Vec::new();
        let mut idx: usize = 8;
        while idx < data.len()
            invariant
                8 <= idx <= data@.len(),
                data@.subrange(0, 8) == spec_signature(),
                spec_parse_png(data@) == spec_prepend(
                    chunk_models(chunks@),
                    spec_parse_chunks(data@.skip(idx as int)),
                ),
                forall|i: int|
                    0 <= i < chunks@.len() ==> (#[trigger] chunk_models(chunks@)[i]).wf(),
            decreases data@.len() - idx,
        {
            let rest = &data[idx..data.len()];
            proof {
                assert(rest@ =~= data@.skip(idx as int));
            }
            let c = match Chunk::parse(rest) {
                Ok(c) => c,
                Err(e) => {
                    return Err(e);
                },
            };
            let n = c.length() as usize;
            proof {
                reveal(ChunkModel::spec_parse);
                assert(ChunkModel::spec_parse(rest@) == Ok::<ChunkModel, PngError>(c@));
                assert(rest@.len() >= 12 + c@.data.len());
            }
            let consumed = n + 12;
            let ghost old_models = chunk_models(chunks@);
            chunks.push(c);
            proof {
                assert(chunk_models(chunks@) =~= old_models.push(c@));
                assert(data@.skip(idx as int).skip(12 + c@.data.len() as int) =~= data@.skip(
                    idx as int + consumed as int,
                ));
                assert(spec_parse_chunks(data@.skip(idx as int)) == spec_prepend(
                    seq![c@],
                    spec_parse_chunks(data@.skip(idx as int + consumed as int)),
                ));
                lemma_prepend_assoc(
                    old_models,
                    seq![c@],
                    spec_parse_chunks(data@.skip(idx as int + consumed as int)),
                );
                assert(old_models + seq![c@] =~= old_models.push(c@));
            }
            idx = idx + consumed;
        }
        proof {
            assert(data@.skip(idx as int) =~= Seq::<u8>::empty());
            assert(spec_parse_chunks(Seq::<u8>::empty()) == Ok::<Seq<ChunkModel>, PngError>(
                Seq::empty(),
            ));
            assert(chunk_models(chunks@) + Seq::<ChunkModel>::empty() =~= chunk_models(chunks@));
        }
        Ok(Png { chunks })
    }

    /// Serializes the container: the signature, then every chunk in order.
    pub fn as_bytes(&self) -> (r: Vec<u8>)
        requires
            self.wf(),
        ensures
            r@ == spec_serialize_png(self@),
    {
        let sig = signature();
        let mut out: Vec<u8> = Vec::new();
        out.push(sig[0]);
        out.push(sig[1]);
        out.push(sig[2]);
        out.push(sig[3]);
        out.push(sig[4]);
        out.push(sig[5]);
        out.push(sig[6]);
        out.push(sig[7]);
        proof {
            assert(self@.take(0) =~= Seq::<ChunkModel>::empty());
            assert(out@ =~= spec_signature() + spec_serialize_chunks(self@.take(0)));
        }
        let mut i: usize = 0;
        while i < self.chunks.len()
            invariant
                i <= self@.len(),
                self.wf(),
                self@.len() == self.chunks@.len(),
                out@ == spec_signature() + spec_serialize_chunks(self@.take(i as int)),
            decreases self@.len() - i,
        {
            proof {
                assert(self@[i as int].wf());
            }
            let mut cb = self.chunks[i].as_bytes();
            out.append(&mut cb);
            i = i + 1;
            proof {
                assert(self@.take(i as int) =~= self@.take(i as int - 1).push(
                    self@[i as int - 1],
                ));
                lemma_serialize_chunks_snoc(self@.take(i as int - 1), self@[i as int - 1]);
                assert(spec_signature() + spec_serialize_chunks(self@.take(i as int)) =~= (
                spec_signature() + spec_serialize_chunks(self@.take(i as int - 1)))
                    + self@[i as int - 1].serialized());
            }
        }
        proof {
            assert(self@.take(self@.len() as int) =~= self@);
        }
        out
    }

    /// Appends a chunk at the end of the container.
    pub fn append_chunk(&mut self, chunk: Chunk)
        requires
            old(self).wf(),
            chunk@.wf(),
        ensures
            final(self)@ == old(self)@.push(chunk@),
            final(self).wf(),
    {
        let ghost orig = self@;
        self.chunks.push(chunk);
        proof {
            assert(self@ =~= orig.push(chunk@));
            assert forall|i: int| 0 <= i < self@.len() implies (#[trigger] self@[i]).wf() by {
                if i < orig.len() {
                    assert(orig[i].wf());
                }
            }
        }
    }

    /// The container's chunks, in order.
    pub fn chunks(&self) -> (r: &Vec<Chunk>)
        ensures
            chunk_models(r@) == self@,
    {
        &self.chunks
    }

    /// Returns the first chunk, in sequence order, whose type code's text
    /// form equals `target`, or `None` when no chunk's does.
    pub fn chunk_by_type(&self, target: &str) -> (r: Option<&Chunk>)
        ensures
            ({
                let k = spec_first_match(self@, target@);
                match r {
                    Some(c) => k < self@.len() && c@ == self@[k],
                    None => k == self@.len(),
                }
            }),
    {
        let mut i: usize = 0;
        while i < self.chunks.len()
            invariant
                i <= self@.len(),
                self@.len() == self.chunks@.len(),
                forall|j: int| 0 <= j < i ==> !spec_matches_type(#[trigger] self@[j], target@),
            decreases self@.len() - i,
        {
            if type_text_is(self.chunks[i].chunk_type(), target) {
                proof {
                    lemma_first_match_at(self@, target@, i as int);
                }
                return Some(&self.chunks[i]);
            }
            i = i + 1;
        }
        proof {
            lemma_first_match_at(self@, target@, self@.len() as int);
        }
        None
    }

    /// Removes and returns the first chunk whose type code's text form equals
    /// `target`; fails with `NotFound`, leaving the container unchanged, when
    /// no chunk's does. Later chunks of the same type stay untouched.
    pub fn remove_chunk(&mut self, target: &str) -> (r: Result<Chunk, PngError>)
        requires
            old(self).wf(),
        ensures
            ({
                let k = spec_first_match(old(self)@, target@);
                match r {
                    Ok(c) => k < old(self)@.len() && c@ == old(self)@[k] && final(self)@ == old(
                        self,
                    )@.remove(k),
                    Err(e) => e == PngError::NotFound && k == old(self)@.len() && final(self)@
                        == old(self)@,
                }
            }),
            final(self).wf(),
    {
        let mut i: usize = 0;
        while i < self.chunks.len()
            invariant
                i <= self@.len(),
                self@.len() == self.chunks@.len(),
                self@ == old(self)@,
                self.wf(),
                forall|j: int| 0 <= j < i ==> !spec_matches_type(#[trigger] self@[j], target@),
            decreases self@.len() - i,
        {
            if type_text_is(self.chunks[i].chunk_type(), target) {
                proof {
                    lemma_first_match_at(self@, target@, i as int);
                }
                let ghost orig = self@;
                let c = self.chunks.remove(i);
                proof {
                    assert(self@ =~= orig.remove(i as int));
                    assert forall|j: int| 0 <= j < self@.len() implies (
                    #[trigger] self@[j]).wf() by {
                        if j < i {
                            assert(orig[j].wf());
                        } else {
                            assert(orig[j + 1].wf());
                        }
                    }
                }
                return Ok(c);
            }
            i = i + 1;
        }
        proof {
            lemma_first_match_at(self@, target@, self@.len() as int);
        }
        Err(PngError::NotFound)
    }
}

/// Whether a chunk's type code has text form `s`.
pub open spec fn spec_matches_type(m: ChunkModel, s: Seq<char>) -> bool {
    spec_type_text_is(m.chunk_type, s)
}

/// The index of the first chunk whose type code's text form is `s`, or the
/// sequence's length when there is none.
pub open spec fn spec_first_match(ms: Seq<ChunkModel>, s: Seq<char>) -> int
    decreases ms.len(),
{
    if ms.len() == 0 {
        0
    } else if spec_matches_type(ms[0], s) {
        0
    } else {
        1 + spec_first_match(ms.drop_first(), s)
    }
}

/// When everything before `i` fails to match and `i` (if in range) matches,
/// the first match is at `i`.
proof fn lemma_first_match_at(ms: Seq<ChunkModel>, s: Seq<char>, i: int)
    requires
        0 <= i <= ms.len(),
        forall|j: int| 0 <= j < i ==> !spec_matches_type(#[trigger] ms[j], s),
        i < ms.len() ==> spec_matches_type(ms[i], s),
    ensures
        spec_first_match(ms, s) == i,
    decreases ms.len(),
{
    if ms.len() == 0 {
    } else if i == 0 {
    } else {
        assert(!spec_matches_type(ms[0], s));
        assert forall|j: int| 0 <= j < i - 1 implies !spec_matches_type(
            #[trigger] ms.drop_first()[j],
            s,
        ) by {
            assert(ms.drop_first()[j] == ms[j + 1]);
        }
        assert(i - 1 < ms.drop_first().len() ==> spec_matches_type(ms.drop_first()[i - 1], s));
        lemma_first_match_at(ms.drop_first(), s, i - 1);
    }
}

/// Whether `t`'s four bytes are the UTF-8 encoding of `target`, which per
/// [`lemma_type_text_encode`] is exactly when `t`'s text form is `target`.
fn type_text_is(t: &ChunkType, target: &str) -> (r: bool)
    ensures
        r == spec_type_text_is(*t, target@),
{
    proof {
        lemma_type_text_encode(*t, target@);
    }
    let tb = target.as_bytes();
    if tb.len() != 4 {
        return false;
    }
    let b = t.bytes();
    let r = b[0] == tb[0] && b[1] == tb[1] && b[2] == tb[2] && b[3] == tb[3];
    proof {
        if r {
            assert(t.spec_bytes() =~= tb@);
        } else {
            if t.spec_bytes() == tb@ {
                assert(b@[0] == tb@[0] && b@[1] == tb@[1] && b@[2] == tb@[2] && b@[3] == tb@[3]);
            }
        }
    }
    r
}

/// Parsing a prefix as one chunk and serializing it again reproduces exactly
/// the bytes the parse consumed.
pub proof fn lemma_chunk_parse_exact(s: Seq<u8>)
    requires
        ChunkModel::spec_parse(s) is Ok,
    ensures
        ({
            let m = ChunkModel::spec_parse(s)->Ok_0;
            &&& m.wf()
            &&& 12 + m.data.len() <= s.len()
            &&& m.serialized() == s.subrange(0, 12 + m.data.len() as int)
        }),
{
    reveal(ChunkModel::spec_parse);
    let m = ChunkModel::spec_parse(s)->Ok_0;
    let n = crate::chunk::spec_u32_from_be_bytes(s.subrange(0, 4)) as int;
    assert(m.data == s.subrange(8, 8 + n));
    crate::chunk::lemma_u32_be_bytes_inverse(s.subrange(0, 4));
    crate::chunk::lemma_u32_be_bytes_inverse(s.subrange(8 + n, 12 + n));
    assert(crate::chunk::spec_u32_to_be_bytes(m.data.len() as u32) == s.subrange(0, 4));
    assert(crate::chunk::spec_u32_to_be_bytes(m.crc) == s.subrange(8 + n, 12 + n));
    assert(m.chunk_type.spec_bytes() =~= s.subrange(4, 8));
    assert(m.serialized() =~= s.subrange(0, 12 + n));
}

/// Parsing a byte sequence as consecutive chunks and serializing the result
/// reproduces the byte sequence exactly.
pub proof fn lemma_chunks_round_trip(s: Seq<u8>)
    requires
        spec_parse_chunks(s) is Ok,
    ensures
        spec_serialize_chunks(spec_parse_chunks(s)->Ok_0) == s,
    decreases s.len(),
{
    if s.len() == 0 {
        assert(spec_serialize_chunks(Seq::<ChunkModel>::empty()) =~= s);
    } else {
        let m = ChunkModel::spec_parse(s)->Ok_0;
        let consumed = 12 + m.data.len() as int;
        let rest = s.skip(consumed);
        let ms_rest = spec_parse_chunks(rest)->Ok_0;
        let ms = spec_parse_chunks(s)->Ok_0;
        assert(spec_parse_chunks(rest) is Ok && ms == seq![m] + ms_rest);
        lemma_chunk_parse_exact(s);
        lemma_chunks_round_trip(rest);
        assert(ms.len() > 0 && ms[0] == m) by {
            assert((seq![m] + ms_rest)[0] == m);
        }
        assert(ms.drop_first() == ms_rest) by {
            assert((seq![m] + ms_rest).drop_first() =~= ms_rest);
        }
        assert(spec_serialize_chunks(ms) == m.serialized() + rest);
        assert(m.serialized() + rest =~= s) by {
            assert(m.serialized() == s.subrange(0, consumed));
            assert(forall|j: int|
                0 <= j < rest.len() ==> rest[j] == #[trigger] s.skip(consumed)[j]);
        }
    }
}

/// Parsing bytes that start with a well-formed chunk's serialized form
/// reads that chunk off the front and parses on behind it.
pub proof fn lemma_parse_chunks_prefix(m: ChunkModel, tail: Seq<u8>)
    requires
        m.wf(),
    ensures
        spec_parse_chunks(m.serialized() + tail) == spec_prepend(
            seq![m],
            spec_parse_chunks(tail),
        ),
{
    let s = m.serialized() + tail;
    crate::chunk::lemma_chunk_round_trip_prefix(m, tail);
    assert(s.len() > 0);
    assert(s.skip(12 + m.data.len() as int) =~= tail);
}

/// Serializing well-formed chunks and parsing the bytes back yields the
/// same chunk sequence.
pub proof fn lemma_chunks_serialize_parse(ms: Seq<ChunkModel>)
    requires
        forall|i: int| 0 <= i < ms.len() ==> (#[trigger] ms[i]).wf(),
    ensures
        spec_parse_chunks(spec_serialize_chunks(ms)) == Ok::<Seq<ChunkModel>, PngError>(ms),
    decreases ms.len(),
{
    if ms.len() == 0 {
        assert(spec_serialize_chunks(ms).len() == 0);
        assert(Seq::<ChunkModel>::empty() =~= ms);
    } else {
        let m = ms[0];
        let rest = ms.drop_first();
        let tail = spec_serialize_chunks(rest);
        assert(m.wf());
        assert forall|i: int| 0 <= i < rest.len() implies (#[trigger] rest[i]).wf() by {
            assert(rest[i] == ms[i + 1]);
        }
        lemma_chunks_serialize_parse(rest);
        lemma_parse_chunks_prefix(m, tail);
        assert(spec_serialize_chunks(ms) == m.serialized() + tail);
        assert(seq![m] + rest =~= ms);
    }
}

/// Serializing a container of well-formed chunks and parsing the bytes back
/// yields an identical ordered chunk sequence.
pub proof fn lemma_png_serialize_parse(ms: Seq<ChunkModel>)
    requires
        forall|i: int| 0 <= i < ms.len() ==> (#[trigger] ms[i]).wf(),
    ensures
        spec_parse_png(spec_serialize_png(ms)) == Ok::<Seq<ChunkModel>, PngError>(ms),
{
    let s = spec_serialize_png(ms);
    assert(s.subrange(0, 8) =~= spec_signature());
    assert(s.skip(8) =~= spec_serialize_chunks(ms));
    lemma_chunks_serialize_parse(ms);
}

/// Parsing a whole buffer as a container and serializing the result
/// reproduces the buffer exactly: byte-perfect round-tripping.
pub proof fn lemma_png_round_trip(s: Seq<u8>)
    requires
        spec_parse_png(s) is Ok,
    ensures
        spec_serialize_png(spec_parse_png(s)->Ok_0) == s,
{
    lemma_chunks_round_trip(s.skip(8));
    assert(spec_signature() + s.skip(8) =~= s);
}

} // verus!
