//! Packing a quantized block into one 32-bit word (carried in a `u64`
//! whose upper half stays zero), and unpacking it again.
//!
//! Bit allocation, from the most significant end of the used 32 bits:
//! `a` 9 bits, `b` 5, `c` 5, `d` 5, `pb_index` 4, `pr_index` 4.

use vstd::prelude::*;
use vstd::arithmetic::power2::pow2;
use vstd::arithmetic::power2::lemma2_to64;
use crate::bitpack;
use crate::bitpack::unsigned_field;
use crate::bitpack::signed_field;
use crate::bitpack::lemma_field_low_agreement;
use crate::bitpack::lemma_signed_field_in_range;
use crate::quantize::BitWidths;
use crate::quantize::QuantizedBlock;
use crate::quantize::block_in_range;

verus! {

// We only use 32 bits for our packed words
const USED_BITS: u64 = 32;

/// A word below 2^k when its bits from k upward vanish.
proof fn lemma_div_zero_bound(x: u64, d: int)
    requires
        d > 0,
        x as int / d == 0,
    ensures
        (x as int) < d,
{
    vstd::arithmetic::div_mod::lemma_fundamental_div_mod(x as int, d);
}

/// Pack a set of quantized values into a 64-bit word; the leading 32
/// bits stay zero. Each value lands in its allocated field.
pub fn pack(quantized_block: QuantizedBlock) -> (r: u64)
    requires
        block_in_range(quantized_block),
    ensures
        r < 0x1_0000_0000,
        unsigned_field(r, 9, 23) == quantized_block.a,
        signed_field(r, 5, 18) == quantized_block.b,
        signed_field(r, 5, 13) == quantized_block.c,
        signed_field(r, 5, 8) == quantized_block.d,
        unsigned_field(r, 4, 4) == quantized_block.pb_index,
        unsigned_field(r, 4, 0) == quantized_block.pr_index,
{
    let QuantizedBlock { a, b, c, d, pb_index, pr_index } = quantized_block;
    proof {
        lemma2_to64();
    }
    let mut word = 0_u64;
    let mut position = 0_u64;

    word = bitpack::newu(word, BitWidths::PR_INDEX, position, pr_index).unwrap();
    let ghost w1 = word;
    proof {
        vstd::arithmetic::div_mod::lemma_basic_div(0, pow2(4) as int);
        lemma_div_zero_bound(w1, pow2(4) as int);
    }
    position = position + BitWidths::PR_INDEX;

    word = bitpack::newu(word, BitWidths::PB_INDEX, position, pb_index).unwrap();
    let ghost w2 = word;
    proof {
        lemma_field_low_agreement(w2, w1, 4, 0, 4);
        vstd::arithmetic::div_mod::lemma_basic_div(w1 as int, pow2(8) as int);
        lemma_div_zero_bound(w2, pow2(8) as int);
    }
    position = position + BitWidths::PB_INDEX;

    word = bitpack::news(word, BitWidths::D, position, d).unwrap();
    let ghost w3 = word;
    proof {
        lemma_signed_field_in_range(w3, 5, 8, d);
        lemma_field_low_agreement(w3, w2, 4, 0, 8);
        lemma_field_low_agreement(w3, w2, 4, 4, 8);
        vstd::arithmetic::div_mod::lemma_basic_div(w2 as int, pow2(13) as int);
        lemma_div_zero_bound(w3, pow2(13) as int);
    }
    position = position + BitWidths::D;

    word = bitpack::news(word, BitWidths::C, position, c).unwrap();
    let ghost w4 = word;
    proof {
        lemma_signed_field_in_range(w4, 5, 13, c);
        lemma_field_low_agreement(w4, w3, 4, 0, 13);
        lemma_field_low_agreement(w4, w3, 4, 4, 13);
        lemma_field_low_agreement(w4, w3, 5, 8, 13);
        vstd::arithmetic::div_mod::lemma_basic_div(w3 as int, pow2(18) as int);
        lemma_div_zero_bound(w4, pow2(18) as int);
    }
    position = position + BitWidths::C;

    word = bitpack::news(word, BitWidths::B, position, b).unwrap();
    let ghost w5 = word;
    proof {
        lemma_signed_field_in_range(w5, 5, 18, b);
        lemma_field_low_agreement(w5, w4, 4, 0, 18);
        lemma_field_low_agreement(w5, w4, 4, 4, 18);
        lemma_field_low_agreement(w5, w4, 5, 8, 18);
        lemma_field_low_agreement(w5, w4, 5, 13, 18);
        vstd::arithmetic::div_mod::lemma_basic_div(w4 as int, pow2(23) as int);
        lemma_div_zero_bound(w5, pow2(23) as int);
    }
    position = position + BitWidths::B;

    word = bitpack::newu(word, BitWidths::A, position, a).unwrap();
    proof {
        let w6 = word;
        lemma_field_low_agreement(w6, w5, 4, 0, 23);
        lemma_field_low_agreement(w6, w5, 4, 4, 23);
        lemma_field_low_agreement(w6, w5, 5, 8, 23);
        lemma_field_low_agreement(w6, w5, 5, 13, 23);
        lemma_field_low_agreement(w6, w5, 5, 18, 23);
        vstd::arithmetic::div_mod::lemma_basic_div(w5 as int, pow2(32) as int);
        lemma_div_zero_bound(w6, pow2(32) as int);
    }

    word
}

/// Unpack quantized values from a 64-bit word. Only the rightmost 32
/// bits are read: each value comes from its allocated field.
pub fn unpack(word: u64) -> (q: QuantizedBlock)
    ensures
        q.a == unsigned_field(word, 9, 23),
        q.b == signed_field(word, 5, 18),
        q.c == signed_field(word, 5, 13),
        q.d == signed_field(word, 5, 8),
        q.pb_index == unsigned_field(word, 4, 4),
        q.pr_index == unsigned_field(word, 4, 0),
{
    let mut position = USED_BITS;

    position = position - BitWidths::A;
    let a = bitpack::getu(word, BitWidths::A, position);
    position = position - BitWidths::B;
    let b = bitpack::gets(word, BitWidths::B, position);
    position = position - BitWidths::C;
    let c = bitpack::gets(word, BitWidths::C, position);
    position = position - BitWidths::D;
    let d = bitpack::gets(word, BitWidths::D, position);
    position = position - BitWidths::PB_INDEX;
    let pb_index = bitpack::getu(word, BitWidths::PB_INDEX, position);
    position = position - BitWidths::PR_INDEX;
    let pr_index = bitpack::getu(word, BitWidths::PR_INDEX, position);

    QuantizedBlock { a, b, c, d, pb_index, pr_index }
}

} // verus!
