//! The quantized form of a cosine-space block, and the bit widths each of
//! its values receives inside a packed 32-bit word.

use vstd::prelude::*;

verus! {

/// A quantized version of a cosine-space block.
#[derive(Clone)]
pub struct QuantizedBlock {
    pub a: u64,
    pub b: i64,
    pub c: i64,
    pub d: i64,
    pub pb_index: u64,
    pub pr_index: u64,
}

/// Describes the number of bits allocated to each discrete cosine value.
/// Used during the bitpacking process.
pub struct BitWidths {}

impl BitWidths {
    pub const A: u64 = 9;

    pub const B: u64 = 5;

    pub const C: u64 = 5;

    pub const D: u64 = 5;

    pub const PB_INDEX: u64 = 4;

    pub const PR_INDEX: u64 = 4;
}

/// Whether every value of a quantized block lies inside its allocated bit
/// width.
pub open spec fn block_in_range(q: QuantizedBlock) -> bool {
    &&& q.a < 512
    &&& -16 <= q.b <= 15
    &&& -16 <= q.c <= 15
    &&& -16 <= q.d <= 15
    &&& q.pb_index < 16
    &&& q.pr_index < 16
}

} // verus!
