//! CRC-32 (ISO-HDLC, the zlib polynomial) over byte sequences.
//!
//! This is the checksum PNG chunks carry. The specification is the
//! bit-at-a-time reflected algorithm with polynomial `0xEDB88320`: the state
//! starts at all ones, each byte is folded in with eight shift-and-xor steps,
//! and the final state is inverted.

use vstd::prelude::*;

verus! {

/// One shift step of the CRC register, with the reflected ISO-HDLC
/// polynomial `0xEDB88320`.
pub open spec fn crc_step(c: u32) -> u32 {
    if c & 1 == 1 {
        (c >> 1) ^ 0xEDB8_8320u32
    } else {
        c >> 1
    }
}

/// `n` shift steps of the CRC register.
pub open spec fn crc_steps(c: u32, n: nat) -> u32
    decreases n,
{
    if n == 0 {
        c
    } else {
        crc_steps(crc_step(c), (n - 1) as nat)
    }
}

/// Folds one byte into the CRC register: xor it in, then shift eight times.
pub open spec fn crc_push_byte(c: u32, b: u8) -> u32 {
    crc_steps(c ^ (b as u32), 8)
}

/// Folds a whole byte sequence into the CRC register, first byte first.
pub open spec fn crc_accumulate(c: u32, s: Seq<u8>) -> u32
    decreases s.len(),
{
    if s.len() == 0 {
        c
    } else {
        crc_accumulate(crc_push_byte(c, s[0]), s.drop_first())
    }
}

/// The CRC-32 checksum of a byte sequence. Opaque: most clients only ever
/// compare checksums, so the register-level definition stays hidden unless a
/// proof reveals it.
#[verifier::opaque]
pub open spec fn spec_crc32(s: Seq<u8>) -> u32 {
    crc_accumulate(0xFFFF_FFFFu32, s) ^ 0xFFFF_FFFFu32
}

/// Stepping `n + 1` times is one more step after stepping `n` times.
proof fn lemma_crc_steps_snoc(c: u32, n: nat)
    ensures
        crc_steps(c, n + 1) == crc_step(crc_steps(c, n)),
    decreases n,
{
    assert(crc_steps(c, n + 1) == crc_steps(crc_step(c), n));
    if n == 0 {
        assert(crc_steps(crc_step(c), 0) == crc_step(c));
    } else {
        assert(crc_steps(c, n) == crc_steps(crc_step(c), (n - 1) as nat));
        lemma_crc_steps_snoc(crc_step(c), (n - 1) as nat);
    }
}

/// Folding a sequence with one more byte at its end folds the byte into the
/// register the shorter sequence produced.
pub proof fn lemma_crc_accumulate_snoc(c: u32, s: Seq<u8>, b: u8)
    ensures
        crc_accumulate(c, s.push(b)) == crc_push_byte(crc_accumulate(c, s), b),
    decreases s.len(),
{
    if s.len() == 0 {
        assert(s.push(b)[0] == b);
        assert(s.push(b).drop_first() =~= Seq::<u8>::empty());
        assert(crc_accumulate(c, s.push(b)) == crc_accumulate(
            crc_push_byte(c, b),
            Seq::<u8>::empty(),
        ));
        assert(crc_accumulate(crc_push_byte(c, b), Seq::<u8>::empty()) == crc_push_byte(c, b));
        assert(crc_accumulate(c, s) == c);
    } else {
        assert(s.push(b)[0] == s[0]);
        assert(s.push(b).drop_first() =~= s.drop_first().push(b));
        lemma_crc_accumulate_snoc(crc_push_byte(c, s[0]), s.drop_first(), b);
    }
}

/// Folding a concatenation folds the first part, then the second.
pub proof fn lemma_crc_accumulate_concat(c: u32, s1: Seq<u8>, s2: Seq<u8>)
    ensures
        crc_accumulate(c, s1 + s2) == crc_accumulate(crc_accumulate(c, s1), s2),
    decreases s1.len(),
{
    if s1.len() == 0 {
        assert(s1 + s2 =~= s2);
    } else {
        assert((s1 + s2)[0] == s1[0]);
        assert((s1 + s2).drop_first() =~= s1.drop_first() + s2);
        lemma_crc_accumulate_concat(crc_push_byte(c, s1[0]), s1.drop_first(), s2);
    }
}

/// One shift step of the CRC register is injective: the polynomial's top bit
/// is set, so the discarded low bit is recoverable from bit 31.
proof fn lemma_crc_step_injective(c1: u32, c2: u32)
    requires
        crc_step(c1) == crc_step(c2),
    ensures
        c1 == c2,
{
    assert((if c1 & 1 == 1 {
        (c1 >> 1) ^ 0xEDB8_8320u32
    } else {
        c1 >> 1
    }) == (if c2 & 1 == 1 {
        (c2 >> 1) ^ 0xEDB8_8320u32
    } else {
        c2 >> 1
    }) ==> c1 == c2) by (bit_vector);
}

/// Any number of shift steps is injective.
proof fn lemma_crc_steps_injective(c1: u32, c2: u32, n: nat)
    requires
        crc_steps(c1, n) == crc_steps(c2, n),
    ensures
        c1 == c2,
    decreases n,
{
    if n > 0 {
        lemma_crc_steps_injective(crc_step(c1), crc_step(c2), (n - 1) as nat);
        lemma_crc_step_injective(c1, c2);
    }
}

/// Folding the same byte into different registers leaves them different.
proof fn lemma_crc_push_byte_injective(c1: u32, c2: u32, b: u8)
    requires
        crc_push_byte(c1, b) == crc_push_byte(c2, b),
    ensures
        c1 == c2,
{
    lemma_crc_steps_injective(c1 ^ (b as u32), c2 ^ (b as u32), 8);
    assert(c1 ^ (b as u32) == c2 ^ (b as u32) ==> c1 == c2) by (bit_vector);
}

/// Folding different bytes into the same register leaves different registers.
proof fn lemma_crc_push_byte_diff(c: u32, b1: u8, b2: u8)
    requires
        b1 != b2,
    ensures
        crc_push_byte(c, b1) != crc_push_byte(c, b2),
{
    assert(c ^ (b1 as u32) != c ^ (b2 as u32)) by (bit_vector)
        requires
            b1 != b2,
    ;
    if crc_push_byte(c, b1) == crc_push_byte(c, b2) {
        lemma_crc_steps_injective(c ^ (b1 as u32), c ^ (b2 as u32), 8);
    }
}

/// Different registers stay different while folding in an equal sequence.
proof fn lemma_crc_accumulate_diff(c1: u32, c2: u32, s: Seq<u8>)
    requires
        c1 != c2,
    ensures
        crc_accumulate(c1, s) != crc_accumulate(c2, s),
    decreases s.len(),
{
    if s.len() > 0 {
        if crc_push_byte(c1, s[0]) == crc_push_byte(c2, s[0]) {
            lemma_crc_push_byte_injective(c1, c2, s[0]);
        }
        lemma_crc_accumulate_diff(
            crc_push_byte(c1, s[0]),
            crc_push_byte(c2, s[0]),
            s.drop_first(),
        );
    }
}

/// Folding a one-byte sequence folds that byte.
proof fn lemma_crc_accumulate_single(c: u32, b: u8)
    ensures
        crc_accumulate(c, seq![b]) == crc_push_byte(c, b),
{
    assert(seq![b].drop_first() =~= Seq::<u8>::empty());
    assert(crc_accumulate(crc_push_byte(c, b), Seq::<u8>::empty()) == crc_push_byte(c, b));
}

/// Two equal-length byte sequences that differ in exactly one position have
/// different CRC-32 checksums: the checksum catches every corruption of a
/// single byte, and so every flip of a single bit.
pub proof fn lemma_crc32_detects_byte_change(s1: Seq<u8>, s2: Seq<u8>, i: int)
    requires
        s1.len() == s2.len(),
        0 <= i < s1.len(),
        s1[i] != s2[i],
        forall|j: int| 0 <= j < s1.len() && j != i ==> s1[j] == s2[j],
    ensures
        spec_crc32(s1) != spec_crc32(s2),
{
    reveal(spec_crc32);
    let init = 0xFFFF_FFFFu32;
    let pre = s1.take(i);
    assert(s2.take(i) =~= pre);
    let c = crc_accumulate(init, pre);
    lemma_crc_accumulate_concat(init, pre, seq![s1[i]]);
    lemma_crc_accumulate_concat(init, pre, seq![s2[i]]);
    lemma_crc_accumulate_single(c, s1[i]);
    lemma_crc_accumulate_single(c, s2[i]);
    let c1 = crc_push_byte(c, s1[i]);
    let c2 = crc_push_byte(c, s2[i]);
    lemma_crc_push_byte_diff(c, s1[i], s2[i]);
    let suffix = s1.skip(i + 1);
    assert(s2.skip(i + 1) =~= suffix);
    lemma_crc_accumulate_concat(init, pre + seq![s1[i]], suffix);
    lemma_crc_accumulate_concat(init, pre + seq![s2[i]], suffix);
    assert((pre + seq![s1[i]]) + suffix =~= s1);
    assert((pre + seq![s2[i]]) + suffix =~= s2);
    lemma_crc_accumulate_diff(c1, c2, suffix);
    let a1 = crc_accumulate(init, s1);
    let a2 = crc_accumulate(init, s2);
    assert(a1 != a2);
    assert(a1 != a2 ==> a1 ^ 0xFFFF_FFFFu32 != a2 ^ 0xFFFF_FFFFu32) by (bit_vector);
}

/// Computes the CRC-32 checksum of a byte slice.
pub fn crc32(data: &[u8]) -> (r: u32)
    ensures
        r == spec_crc32(data@),
{
    let mut c: u32 = 0xFFFF_FFFF;
    let mut i: usize = 0;
    while i < data.len()
        invariant
            i <= data@.len(),
            c == crc_accumulate(0xFFFF_FFFFu32, data@.take(i as int)),
        decreases data@.len() - i,
    {
        let ghost prefix = data@.take(i as int);
        let ghost c_in = (c ^ (data@[i as int] as u32)) as u32;
        c = c ^ (data[i] as u32);
        let mut k: usize = 0;
        while k < 8
            invariant
                k <= 8,
                c == crc_steps(c_in, k as nat),
            decreases 8 - k,
        {
            proof {
                lemma_crc_steps_snoc(c_in, k as nat);
            }
            if c & 1 == 1 {
                c = (c >> 1) ^ 0xEDB8_8320;
            } else {
                c = c >> 1;
            }
            k = k + 1;
        }
        proof {
            lemma_crc_accumulate_snoc(0xFFFF_FFFFu32, prefix, data@[i as int]);
            assert(prefix.push(data@[i as int]) =~= data@.take(i as int + 1));
        }
        i = i + 1;
    }
    proof {
        reveal(spec_crc32);
        assert(data@.take(data@.len() as int) =~= data@);
    }
    c ^ 0xFFFF_FFFF
}

} // verus!
