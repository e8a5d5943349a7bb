//! Assembling a program's byte stream into machine words: four bytes per
//! word, stored big-endian, no header.

use vstd::prelude::*;
use crate::rumrun::Fault;

verus! {

/// The word whose big-endian bytes are `b0 b1 b2 b3`.
pub open spec fn be_word(b0: u8, b1: u8, b2: u8, b3: u8) -> int {
    b0 * 0x100_0000 + b1 * 0x1_0000 + b2 * 0x100 + b3
}

/// Turn a program's bytes into its words, big-endian, four bytes each;
/// a byte count that is not a multiple of four is a malformed file.
pub fn words_from_bytes(bytes: &Vec<u8>) -> (r: Result<Vec<u32>, Fault>)
    ensures
        r is Ok <==> bytes@.len() % 4 == 0,
        r matches Ok(words) ==> {
            &&& words@.len() == bytes@.len() as int / 4
            &&& forall|i: int|
                0 <= i < words@.len() ==> #[trigger] words@[i] == be_word(
                    bytes@[4 * i],
                    bytes@[4 * i + 1],
                    bytes@[4 * i + 2],
                    bytes@[4 * i + 3],
                )
        },
        r matches Err(e) ==> e == Fault::MalformedFile,
{
    if bytes.len() % 4 != 0 {
        return Err(Fault::MalformedFile);
    }
    let count = bytes.len() / 4;
    let mut words: Vec<u32> = Vec::new();
    while words.len() < count
        invariant
            bytes@.len() % 4 == 0,
            count == bytes@.len() as int / 4,
            4 * count == bytes@.len(),
            bytes@.len() <= usize::MAX,
            words@.len() <= count,
            forall|i: int|
                0 <= i < words@.len() ==> #[trigger] words@[i] == be_word(
                    bytes@[4 * i],
                    bytes@[4 * i + 1],
                    bytes@[4 * i + 2],
                    bytes@[4 * i + 3],
                ),
        decreases count - words.len(),
    {
        let i = words.len();
        let b0 = bytes[4 * i];
        let b1 = bytes[4 * i + 1];
        let b2 = bytes[4 * i + 2];
        let b3 = bytes[4 * i + 3];
        let word = (b0 as u32) << 24 | (b1 as u32) << 16 | (b2 as u32) << 8 | (b3 as u32);
        proof {
            lemma_be_word(b0, b1, b2, b3, word);
        }
        words.push(word);
    }
    Ok(words)
}

/// Shifting and combining disjoint bytes is the big-endian sum.
proof fn lemma_be_word(b0: u8, b1: u8, b2: u8, b3: u8, word: u32)
    requires
        word == (b0 as u32) << 24 | (b1 as u32) << 16 | (b2 as u32) << 8 | (b3 as u32),
    ensures
        word == be_word(b0, b1, b2, b3),
{
    assert(((b0 as u32) << 24 | (b1 as u32) << 16 | (b2 as u32) << 8 | (b3 as u32)) == (b0 as u32)
        * 0x100_0000 + (b1 as u32) * 0x1_0000 + (b2 as u32) * 0x100 + (b3 as u32)) by (bit_vector);
}

} // verus!
