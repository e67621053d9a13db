//! Reductions of host-supplied entropy, and the deterministic encoding of
//! engine state that seeds the host's entropy source.
//!
//! The host capability itself — unpredictable bytes for a given seed — is
//! external; everything here is a pure function on bytes and words.

use vstd::prelude::*;

verus! {

/// What the Keccak-256 digest of a byte sequence is: a function of the
/// bytes alone, computed by the host's hashing primitive.
pub uninterp spec fn keccak_of(input: Seq<u8>) -> Seq<u8>;

/// Relies on ink_env::hash_bytes with the Keccak256 hasher: it writes the
/// 32-byte Keccak-256 digest of the input bytes, a function of the input
/// alone.
#[verifier::external_body]
pub(crate) fn keccak_256(input: &Vec<u8>) -> (r: [u8; 32])
    ensures
        r@ == keccak_of(input@),
{
    let mut output = [0u8; 32];
    ink_env::hash_bytes::<ink_env::hash::Keccak256>(input.as_slice(), &mut output);
    output
}

/// The sum of a byte sequence's values.
pub open spec fn sum_bytes(s: Seq<u8>) -> int
    decreases s.len(),
{
    if s.len() == 0 {
        0
    } else {
        sum_bytes(s.drop_last()) + s.last()
    }
}

/// A byte sum is non-negative and at most 255 per byte.
pub proof fn lemma_sum_bytes_bounds(s: Seq<u8>)
    ensures
        0 <= sum_bytes(s) <= 255 * s.len(),
    decreases s.len(),
{
    if s.len() > 0 {
        lemma_sum_bytes_bounds(s.drop_last());
    }
}

/// Reduce a 32-byte entropy block to an unsigned integer by summing its
/// bytes.
pub fn rand_from_bytes(entropy: &[u8; 32]) -> (r: u64)
    ensures
        r == sum_bytes(entropy@),
{
    let mut total: u64 = 0;
    let mut k: usize = 0;
    while k < 32
        invariant
            0 <= k <= 32,
            total == sum_bytes(entropy@.subrange(0, k as int)),
            total <= 255 * k,
        decreases 32 - k,
    {
        proof {
            let prefix = entropy@.subrange(0, k + 1);
            assert(prefix.drop_last() =~= entropy@.subrange(0, k as int));
            assert(prefix.last() == entropy@[k as int]);
        }
        total = total + (entropy[k] as u64);
        k = k + 1;
    }
    proof {
        assert(entropy@.subrange(0, 32) =~= entropy@);
    }
    total
}

/// The big-endian 32-bit value of a byte sequence's first four bytes.
pub open spec fn u32_be_of(s: Seq<u8>) -> int
    recommends
        s.len() >= 4,
{
    s[0] * 0x1000000 + s[1] * 0x10000 + s[2] * 0x100 + s[3]
}

/// Reduce entropy bytes to a 32-bit value by reading the first four bytes
/// big-endian.
pub fn as_u32_be(arr: &[u8]) -> (r: u32)
    requires
        arr@.len() >= 4,
    ensures
        r == u32_be_of(arr@),
{
    let b0 = arr[0];
    let b1 = arr[1];
    let b2 = arr[2];
    let b3 = arr[3];
    proof {
        assert(((b0 as u32) << 24) == b0 * 0x1000000) by (bit_vector);
        assert(((b1 as u32) << 16) == b1 * 0x10000) by (bit_vector);
        assert(((b2 as u32) << 8) == b2 * 0x100) by (bit_vector);
    }
    ((b0 as u32) << 24) + ((b1 as u32) << 16) + ((b2 as u32) << 8) + (b3 as u32)
}

/// The eight bytes of a 64-bit word, least significant first.
pub open spec fn le_bytes_u64(v: u64) -> Seq<u8> {
    Seq::new(8, |i: int| ((v >> ((8 * i) as u64)) & 0xff) as u8)
}

/// The concatenated little-endian bytes of a sequence of 64-bit words.
pub open spec fn le_concat(ws: Seq<u64>) -> Seq<u8>
    decreases ws.len(),
{
    if ws.len() == 0 {
        Seq::empty()
    } else {
        le_bytes_u64(ws[0]) + le_concat(ws.drop_first())
    }
}

/// Appending a word to the encoded sequence appends its bytes.
pub proof fn lemma_le_concat_push(ws: Seq<u64>, v: u64)
    ensures
        le_concat(ws.push(v)) == le_concat(ws) + le_bytes_u64(v),
    decreases ws.len(),
{
    if ws.len() == 0 {
        let l = ws.push(v);
        assert(l[0] == v);
        assert(l.drop_first() =~= Seq::<u64>::empty());
        assert(le_concat(l.drop_first()) =~= Seq::<u8>::empty());
        assert(le_concat(l) == le_bytes_u64(v) + le_concat(l.drop_first()));
        assert(le_concat(ws) =~= Seq::<u8>::empty());
        assert(le_concat(l) =~= le_concat(ws) + le_bytes_u64(v));
    } else {
        let l = ws.push(v);
        assert(l.drop_first() =~= ws.drop_first().push(v));
        assert(l[0] == ws[0]);
        lemma_le_concat_push(ws.drop_first(), v);
        assert(le_concat(l) == le_bytes_u64(ws[0]) + (le_concat(ws.drop_first()) + le_bytes_u64(
            v,
        )));
        assert(le_bytes_u64(ws[0]) + (le_concat(ws.drop_first()) + le_bytes_u64(v)) =~= (
        le_bytes_u64(ws[0]) + le_concat(ws.drop_first())) + le_bytes_u64(v));
        assert(le_concat(ws) == le_bytes_u64(ws[0]) + le_concat(ws.drop_first()));
    }
}

/// Encode a sequence of 64-bit words as their concatenated little-endian
/// bytes.
pub fn encode_words_le(words: &Vec<u64>) -> (r: Vec<u8>)
    ensures
        r@ == le_concat(words@),
{
    let mut out: Vec<u8> = Vec::new();
    let mut i: usize = 0;
    proof {
        assert(words@.subrange(0, 0) =~= Seq::<u64>::empty());
        assert(out@ =~= le_concat(words@.subrange(0, 0)));
    }
    while i < words.len()
        invariant
            0 <= i <= words@.len(),
            out@ == le_concat(words@.subrange(0, i as int)),
        decreases words@.len() - i,
    {
        let v = words[i];
        let mut j: usize = 0;
        proof {
            assert(le_bytes_u64(v).subrange(0, 0) =~= Seq::<u8>::empty());
            assert(out@ =~= le_concat(words@.subrange(0, i as int)) + le_bytes_u64(v).subrange(
                0,
                0,
            ));
        }
        while j < 8
            invariant
                0 <= j <= 8,
                0 <= i < words@.len(),
                v == words@[i as int],
                out@ == le_concat(words@.subrange(0, i as int)) + le_bytes_u64(v).subrange(
                    0,
                    j as int,
                ),
            decreases 8 - j,
        {
            let byte: u8 = ((v >> ((8 * j) as u64)) & 0xff) as u8;
            proof {
                assert(le_bytes_u64(v)[j as int] == byte);
                assert(le_bytes_u64(v).subrange(0, j + 1) =~= le_bytes_u64(v).subrange(
                    0,
                    j as int,
                ).push(byte));
                assert((le_concat(words@.subrange(0, i as int)) + le_bytes_u64(v).subrange(
                    0,
                    j as int,
                )).push(byte) =~= le_concat(words@.subrange(0, i as int)) + le_bytes_u64(
                    v,
                ).subrange(0, j + 1));
            }
            out.push(byte);
            j = j + 1;
        }
        proof {
            assert(le_bytes_u64(v).subrange(0, 8) =~= le_bytes_u64(v));
            assert(words@.subrange(0, i + 1) =~= words@.subrange(0, i as int).push(v));
            lemma_le_concat_push(words@.subrange(0, i as int), v);
        }
        i = i + 1;
    }
    proof {
        assert(words@.subrange(0, words@.len() as int) =~= words@);
    }
    out
}

} // verus!
