//! Instruction decoder: extracts the bit fields of a 32-bit machine word.
//!
//! Field layout (least-significant-bit offset, width): opcode at 28, width 4;
//! `reg_a` at 6, width 3; `reg_b` at 3, width 3; `reg_c` at 0, width 3;
//! `reg_load` at 25, width 3; `load_value` at 0, width 25.

use vstd::prelude::*;
use vstd::arithmetic::power2::pow2;
use vstd::arithmetic::power2::lemma2_to64;
use vstd::bits::lemma_u32_shr_is_div;
use vstd::bits::lemma_u32_shl_is_mul;
use vstd::bits::lemma_u32_low_bits_mask_is_mod;
use vstd::bits::low_bits_mask;

verus! {

/// A Universal Machine instruction.
/// Not all fields will be used for a given instruction.
#[derive(Default, Debug, PartialEq, Eq, Structural)]
pub struct Instruction {
    pub opcode: u32,
    pub reg_a: u32,
    pub reg_b: u32,
    pub reg_c: u32,
    pub reg_load: u32,
    pub load_value: u32,
}

/// The opcode: bits 28 to 31 of the word.
pub open spec fn opcode_of(word: u32) -> u32 {
    (word / 0x10000000) % 16
}

/// Register field A: bits 6 to 8 of the word.
pub open spec fn reg_a_of(word: u32) -> u32 {
    (word / 64) % 8
}

/// Register field B: bits 3 to 5 of the word.
pub open spec fn reg_b_of(word: u32) -> u32 {
    (word / 8) % 8
}

/// Register field C: bits 0 to 2 of the word.
pub open spec fn reg_c_of(word: u32) -> u32 {
    word % 8
}

/// The destination register of an immediate load: bits 25 to 27 of the word.
pub open spec fn reg_load_of(word: u32) -> u32 {
    (word / 0x2000000) % 8
}

/// The immediate value of an immediate load: bits 0 to 24 of the word.
pub open spec fn load_value_of(word: u32) -> u32 {
    word % 0x2000000
}

/// The decoded view of a word: every field at its documented offset.
pub open spec fn decode(word: u32) -> Instruction {
    Instruction {
        opcode: opcode_of(word),
        reg_a: reg_a_of(word),
        reg_b: reg_b_of(word),
        reg_c: reg_c_of(word),
        reg_load: reg_load_of(word),
        load_value: load_value_of(word),
    }
}

/// Disassemble a binary word into a Universal Machine instruction.
pub fn disassemble(word: &u32) -> (inst: Instruction)
    ensures
        inst == decode(*word),
{
    let inst = Instruction {
        opcode: get_bits(word, 28, 4),
        reg_a: get_bits(word, 6, 3),
        reg_b: get_bits(word, 3, 3),
        reg_c: get_bits(word, 0, 3),
        reg_load: get_bits(word, 25, 3),
        load_value: get_bits(word, 0, 25),
    };
    proof {
        lemma2_to64();
    }
    inst
}

const WORD_SIZE: u8 = 32;

/// Extract the unsigned field of `width` bits at least-significant-bit
/// offset `lsb` from `word`. A field of width 0 yields 0.
pub fn get_bits(word: &u32, lsb: u8, width: u8) -> (r: u32)
    requires
        lsb + width <= 32,
    ensures
        width == 0 ==> r == 0,
        width > 0 ==> r == (*word as nat / pow2(lsb as nat)) % pow2(width as nat),
{
    // Fields of width 0 always store 0
    if width == 0 {
        return 0;
    }

    // Zero out LHS
    let w = *word;
    let magnitude = (WORD_SIZE - (lsb + width)) as u32;
    let lhs_removed = (w << magnitude) >> magnitude;

    // Shift value all the way to the right
    let r = lhs_removed >> (lsb as u32);
    proof {
        lemma_get_bits(*word, lsb as u32, width as u32, magnitude, r);
    }
    r
}

proof fn lemma_get_bits(word: u32, lsb: u32, width: u32, magnitude: u32, r: u32)
    requires
        0 < width,
        lsb + width <= 32,
        magnitude == 32 - lsb - width,
        r == ((word << magnitude) >> magnitude) >> lsb,
    ensures
        r == (word as nat / pow2(lsb as nat)) % pow2(width as nat),
{
    lemma_u32_shr_is_div(word, lsb);
    lemma2_to64();
    if width == 32 {
        assert(r == word) by (bit_vector)
            requires
                width == 32,
                lsb == 0,
                magnitude == 0,
                r == ((word << magnitude) >> magnitude) >> lsb,
        ;
        assert(word < pow2(32));
    } else {
        let mask: u32 = ((1u32 << width) - 1) as u32;
        assert(r == (word >> lsb) & mask) by (bit_vector)
            requires
                0 < width < 32,
                lsb + width <= 32,
                magnitude == 32 - lsb - width,
                r == ((word << magnitude) >> magnitude) >> lsb,
                mask == ((1u32 << width) - 1) as u32,
        ;
        lemma_u32_shl_is_mul(1, width);
        assert(mask == low_bits_mask(width as nat) as u32);
        lemma_u32_low_bits_mask_is_mod(word >> lsb, width as nat);
    }
}

/// Reassembling the decoded fields at their documented offsets reproduces
/// the word's bits exactly: the three-register layout recovers bits 0 to 8
/// and 28 to 31, and the immediate-load layout recovers the whole word.
pub proof fn lemma_decode_round_trip(word: u32)
    ensures
        opcode_of(word) * 0x10000000 + reg_a_of(word) * 64 + reg_b_of(word) * 8 + reg_c_of(word)
            == word & 0xF00001FF,
        opcode_of(word) * 0x10000000 + reg_load_of(word) * 0x2000000 + load_value_of(word) == word,
{
    assert(((word / 0x10000000) % 16) * 0x10000000 + ((word / 64) % 8) * 64 + ((word / 8) % 8) * 8
        + word % 8 == word & 0xF00001FF) by (bit_vector);
    assert(((word / 0x10000000) % 16) * 0x10000000 + ((word / 0x2000000) % 8) * 0x2000000 + word
        % 0x2000000 == word) by (bit_vector);
}

} // verus!
