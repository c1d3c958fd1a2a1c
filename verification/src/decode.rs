//! Fixed-width little-endian integers read out of a byte buffer.

use vstd::arithmetic::power2::{
    lemma2_to64, lemma2_to64_rest, lemma_pow2_adds, lemma_pow2_strictly_increases, pow2,
};
use vstd::prelude::*;

verus! {

/// The number that `bytes` spell in little-endian order: the first byte is
/// the least significant.
pub open spec fn le_value(bytes: Seq<u8>) -> nat
    decreases bytes.len(),
{
    if bytes.len() == 0 {
        0
    } else {
        bytes[0] as nat + 256 * le_value(bytes.drop_first())
    }
}

/// The little-endian value of the `length` bytes of `bytes` from `offset` on.
pub open spec fn block(bytes: Seq<u8>, offset: int, length: int) -> nat {
    le_value(bytes.subrange(offset, offset + length))
}

/// A little-endian value of `n` bytes is below `2^(8n)`.
pub proof fn lemma_le_value_bound(bytes: Seq<u8>)
    ensures
        le_value(bytes) < pow2(8 * bytes.len()),
    decreases bytes.len(),
{
    if bytes.len() == 0 {
        lemma2_to64();
    } else {
        let rest = bytes.drop_first();
        lemma_le_value_bound(rest);
        lemma_pow2_adds(8, 8 * rest.len());
        lemma2_to64();
        assert(8 * bytes.len() == 8 + 8 * rest.len());
        assert(256 * le_value(rest) + 256 <= 256 * pow2(8 * rest.len())) by (nonlinear_arith)
            requires
                le_value(rest) < pow2(8 * rest.len()),
        ;
    }
}

/// Reads `length` bytes of `bytes` from `offset` on as an unsigned
/// little-endian integer.
pub fn get_block_by_size(bytes: &[u8], offset: usize, length: usize) -> (result: usize)
    requires
        offset + length <= bytes.len(),
        8 * length <= usize::BITS,
    ensures
        result == block(bytes@, offset as int, length as int),
        result < pow2(8 * length as nat),
{
    let mut result: u64 = 0;
    let mut i: usize = length;
    proof {
        lemma2_to64();
        assert(bytes@.subrange(offset + length, offset + length).len() == 0);
    }
    while i > 0
        invariant
            i <= length,
            offset + length <= bytes.len(),
            8 * length <= usize::BITS,
            result == le_value(bytes@.subrange(offset + i, offset + length)),
        decreases i,
    {
        i = i - 1;
        let byte: u8 = bytes[offset + i];
        proof {
            let tail = bytes@.subrange(offset + i + 1, offset + length);
            let whole = bytes@.subrange(offset + i, offset + length);
            assert(whole.drop_first() =~= tail);
            assert(whole[0] == byte);
            lemma_le_value_bound(tail);
            lemma_le_value_bound(whole);
            assert(whole.len() <= 8);
            if whole.len() < 8 {
                lemma_pow2_strictly_increases(8 * whole.len(), 64);
            }
            lemma2_to64_rest();
        }
        result = result * 256 + byte as u64;
    }
    proof {
        let whole = bytes@.subrange(offset as int, offset + length);
        lemma_le_value_bound(whole);
        vstd::layout::unsigned_int_max_values();
    }
    result as usize
}

} // verus!
