//! Bit-field packing over 64-bit words: testing whether a value fits a
//! field, and reading or writing the unsigned or signed field of `width`
//! bits that begins at least-significant bit `lsb`.

use vstd::prelude::*;
use vstd::arithmetic::power2::pow2;
use vstd::arithmetic::power2::lemma2_to64;
use vstd::bits::lemma_u64_shr_is_div;
use vstd::bits::lemma_u64_shl_is_mul;
use vstd::bits::lemma_u64_low_bits_mask_is_mod;
use vstd::bits::low_bits_mask;

verus! {

/// An unsigned value fits a field when the field is non-empty and the
/// value stays under 2^width.
pub open spec fn fits_unsigned(n: u64, width: u64) -> bool {
    width > 0 && (width >= 64 || n < pow2(width as nat))
}

/// A signed value fits a field when the field is non-empty and the value
/// lies between -2^width and 2^width - 1; a field of width 1 admits only
/// 0 and -1. (The field stores the value's low `width` bits, so of this
/// range the upper and lower half store the same bits.)
pub open spec fn fits_signed(n: i64, width: u64) -> bool {
    if width == 0 {
        false
    } else if width == 1 {
        n == 0 || n == -1
    } else if width >= 63 {
        true
    } else {
        -(pow2(width as nat) as int) <= n < pow2(width as nat)
    }
}

/// The unsigned value of the field of `width` bits at offset `lsb`.
pub open spec fn unsigned_field(word: u64, width: u64, lsb: u64) -> int {
    (word as int / pow2(lsb as nat) as int) % pow2(width as nat) as int
}

/// The two's-complement value of the field of `width` bits at offset
/// `lsb`.
pub open spec fn signed_field(word: u64, width: u64, lsb: u64) -> int {
    let u = unsigned_field(word, width, lsb);
    if u < pow2((width - 1) as nat) {
        u
    } else {
        u - pow2(width as nat)
    }
}

/// Returns true iff the signed value `n` fits into `width` signed bits:
/// between -2^width and 2^width - 1, the values whose low `width` bits
/// can carry them.
pub fn fitss(n: i64, width: u64) -> (r: bool)
    ensures
        r == fits_signed(n, width),
{
    if width == 0 {
        return false;
    }
    if width == 1 {
        return n == 0 || n == -1;
    }
    if width >= 63 {
        return true;
    }
    let sh = width - 1;
    let bound = 2_i64 << sh;
    proof {
        assert(2_i64 << sh == (1u64 << (width as u64)) as i64) by (bit_vector)
            requires
                2 <= width <= 62,
                sh == width - 1,
        ;
        vstd::bits::lemma_u64_pow2_no_overflow(width as nat);
        lemma_u64_shl_is_mul(1, width);
        vstd::arithmetic::power2::lemma_pow2_pos(width as nat);
        vstd::arithmetic::power2::lemma_pow2_strictly_increases(width as nat, 63);
        lemma2_to64();
        vstd::arithmetic::power2::lemma2_to64_rest();
        assert(bound == (1u64 << (width as u64)) as i64);
        assert((1u64 << (width as u64)) == pow2(width as nat));
        assert(pow2(width as nat) < 0x8000_0000_0000_0000);
        assert(bound == pow2(width as nat));
    }
    let lower = -bound;
    let upper = bound - 1;
    lower <= n && n <= upper
}

/// Returns true iff the unsigned value `n` fits into `width` unsigned
/// bits.
pub fn fitsu(n: u64, width: u64) -> (r: bool)
    ensures
        r == fits_unsigned(n, width),
{
    if width == 0 {
        return false;
    }
    if width >= 64 {
        return true;
    }
    proof {
        assert(2u64 << ((width - 1) as u64) == 1u64 << (width as u64)) by (bit_vector)
            requires
                1 <= width <= 63,
        ;
        vstd::bits::lemma_u64_pow2_no_overflow(width as nat);
        lemma_u64_shl_is_mul(1, width);
    }
    n < (2_u64 << (width - 1))
}

/// Bitwise shift a value left; all zeroes when the shift reaches past
/// the word.
#[inline]
pub fn shift_left(word: u64, magnitude: u64) -> (r: u64)
    ensures
        magnitude >= 64 ==> r == 0,
        magnitude < 64 ==> r == word << magnitude,
{
    if magnitude >= WORD_SIZE {
        return 0_u64;
    }
    word << magnitude
}

/// Bitwise shift a value right logically; all zeroes when the shift
/// reaches past the word.
#[inline]
pub fn logical_shift_right(word: u64, magnitude: u64) -> (r: u64)
    ensures
        magnitude >= 64 ==> r == 0,
        magnitude < 64 ==> r == word >> magnitude,
{
    if magnitude >= WORD_SIZE {
        return 0_u64;
    }
    word >> magnitude
}

/// Bitwise shift a value right arithmetically; a saturated word when the
/// shift reaches past it.
#[inline]
pub fn arithmetic_shift_right(word: i64, magnitude: u64) -> (r: i64)
    ensures
        magnitude >= 64 ==> r == (if word < 0 {
            i64::MIN
        } else {
            0_i64
        }),
        magnitude < 64 ==> r == word >> magnitude,
{
    if magnitude >= WORD_SIZE {
        // 2's complement: copy first bit over entire word
        return if word < 0 {
            i64::MIN
        } else {
            0_i64
        };
    }
    word >> magnitude
}

const WORD_SIZE: u64 = 64;

/// The double-shift composition leaves exactly the unsigned field.
#[verifier::rlimit(50)]
proof fn lemma_unsigned_field_shifts(word: u64, width: u64, lsb: u64, uf: u64)
    requires
        0 < width,
        lsb + width <= 64,
        uf == ((word << ((64 - lsb - width) as u64)) >> ((64 - lsb - width) as u64)) >> lsb,
    ensures
        uf == unsigned_field(word, width, lsb),
        uf < pow2(width as nat),
{
    lemma_u64_shr_is_div(word, lsb);
    lemma2_to64();
    if width == 64 {
        assert(uf == word) by (bit_vector)
            requires
                width == 64,
                lsb == 0,
                uf == ((word << ((64 - lsb - width) as u64)) >> ((64 - lsb - width) as u64))
                    >> lsb,
        ;
        assert(word < pow2(64));
        vstd::arithmetic::div_mod::lemma_small_mod(word as nat, pow2(64));
        assert(pow2(0) == 1);
        assert(word as int / pow2(0) as int == word as int);
        assert(word as int % pow2(64) as int == word as int);
        assert(uf == unsigned_field(word, width, lsb));
    } else {
        let mask: u64 = ((1u64 << width) - 1) as u64;
        assert(uf == (word >> lsb) & mask) by (bit_vector)
            requires
                0 < width < 64,
                lsb + width <= 64,
                uf == ((word << ((64 - lsb - width) as u64)) >> ((64 - lsb - width) as u64))
                    >> lsb,
                mask == ((1u64 << width) - 1) as u64,
        ;
        vstd::bits::lemma_u64_pow2_no_overflow(width as nat);
        lemma_u64_shl_is_mul(1, width);
        assert(mask == low_bits_mask(width as nat) as u64);
        lemma_u64_low_bits_mask_is_mod(word >> lsb, width as nat);
        vstd::arithmetic::power2::lemma_pow2_pos(width as nat);
    }
}

/// Retrieve an unsigned value from `word`, represented by `width` bits
/// beginning at least-significant bit `lsb`.
pub fn getu(word: u64, width: u64, lsb: u64) -> (r: u64)
    requires
        width + lsb <= 64,
    ensures
        width == 0 ==> r == 0,
        width > 0 ==> r == unsigned_field(word, width, lsb),
{
    // Fields of width 0 always store 0
    if width == 0 {
        return 0;
    }

    // Zero out LHS
    let magnitude = WORD_SIZE - (lsb + width);
    let lhs_removed = logical_shift_right(shift_left(word, magnitude), magnitude);
    // Shift value all the way to the right
    let r = logical_shift_right(lhs_removed, lsb);
    proof {
        lemma_unsigned_field_shifts(word, width, lsb, r);
    }
    r
}

/// Retrieve a signed value from `word`, represented by `width` bits
/// beginning at least-significant bit `lsb`.
pub fn gets(word: u64, width: u64, lsb: u64) -> (r: i64)
    requires
        width + lsb <= 64,
    ensures
        width == 0 ==> r == 0,
        width > 0 ==> r == signed_field(word, width, lsb),
{
    // Fields of width 0 always store 0
    if width == 0 {
        return 0;
    }

    // Fill LHS with zeroes or ones depending on leading bit
    let magnitude = WORD_SIZE - (lsb + width);
    let shifted = shift_left(word, magnitude);
    let lhs_removed = arithmetic_shift_right(#[verifier::truncate] (shifted as i64), magnitude);
    // Shift value all the way to the right
    let r = arithmetic_shift_right(lhs_removed, lsb);
    proof {
        let uf = ((word << ((64 - lsb - width) as u64)) >> ((64 - lsb - width) as u64)) >> lsb;
        lemma_unsigned_field_shifts(word, width, lsb, uf);
        assert((uf < (1u64 << ((width - 1) as u64)) ==> r == uf) && (uf >= (1u64 << ((width - 1)
            as u64)) ==> r as int == uf as int - ((1u64 << ((width - 1) as u64)) as int) - ((1u64
            << ((width - 1) as u64)) as int))) by (bit_vector)
            requires
                0 < width,
                lsb + width <= 64,
                uf == ((word << ((64 - lsb - width) as u64)) >> ((64 - lsb - width) as u64))
                    >> lsb,
                r == (((word << ((64 - lsb - width) as u64)) as i64) >> ((64 - lsb - width)
                    as u64)) >> lsb,
        ;
        vstd::bits::lemma_u64_pow2_no_overflow((width - 1) as nat);
        lemma_u64_shl_is_mul(1, (width - 1) as u64);
        vstd::arithmetic::power2::lemma_pow2_adds((width - 1) as nat, 1);
        lemma2_to64();
    }
    r
}

/// The low bits of two words agree below `lsb` when their masked forms
/// agree.
proof fn lemma_low_bits_agree(x: u64, y: u64, lsb: u64)
    requires
        lsb < 64,
        x & (((1u64 << lsb) - 1) as u64) == y & (((1u64 << lsb) - 1) as u64),
    ensures
        x as int % pow2(lsb as nat) as int == y as int % pow2(lsb as nat) as int,
{
    vstd::bits::lemma_u64_pow2_no_overflow(lsb as nat);
    lemma_u64_shl_is_mul(1, lsb);
    assert(((1u64 << lsb) - 1) as u64 == low_bits_mask(lsb as nat) as u64);
    lemma_u64_low_bits_mask_is_mod(x, lsb as nat);
    lemma_u64_low_bits_mask_is_mod(y, lsb as nat);
}

/// Return a modified version of the unsigned `word`, whose `width` bits
/// beginning at least-significant bit `lsb` now contain the unsigned
/// `value`; `None` iff the value does not fit in `width` unsigned bits.
/// Every bit below and above the field keeps its old value.
pub fn newu(word: u64, width: u64, lsb: u64, value: u64) -> (r: Option<u64>)
    requires
        width + lsb <= 64,
    ensures
        r is Some <==> fits_unsigned(value, width),
        r matches Some(w2) ==> {
            &&& unsigned_field(w2, width, lsb) == value
            &&& w2 as int % pow2(lsb as nat) as int == word as int % pow2(lsb as nat) as int
            &&& w2 as int / pow2((lsb + width) as nat) as int == word as int / pow2(
                (lsb + width) as nat,
            ) as int
        },
{
    if !fitsu(value, width) {
        return None;
    }

    // Isolate bits to left of value
    let lhs_magnitude = width + lsb;
    let lhs = shift_left(logical_shift_right(word, lhs_magnitude), lhs_magnitude);

    // Isolate bits to right of value
    let rhs_magnitude = WORD_SIZE - lsb;
    let rhs = logical_shift_right(shift_left(word, rhs_magnitude), rhs_magnitude);

    // Left-pad value as appropriate
    let value_shifted = shift_left(value, lsb);

    // Combine into new word
    let w2 = lhs | value_shifted | rhs;
    proof {
        lemma_newu(word, width, lsb, value, lhs, rhs, w2);
    }
    Some(w2)
}

/// The three-part recombination writes the field and keeps the rest.
#[verifier::rlimit(100)]
proof fn lemma_newu(word: u64, width: u64, lsb: u64, value: u64, lhs: u64, rhs: u64, w2: u64)
    requires
        0 < width,
        lsb + width <= 64,
        fits_unsigned(value, width),
        lhs == if lsb + width == 64 {
            0u64
        } else {
            (word >> ((lsb + width) as u64)) << ((lsb + width) as u64)
        },
        rhs == if lsb == 0 {
            0u64
        } else {
            (word << ((64 - lsb) as u64)) >> ((64 - lsb) as u64)
        },
        w2 == lhs | (value << lsb) | rhs,
    ensures
        unsigned_field(w2, width, lsb) == value,
        w2 as int % pow2(lsb as nat) as int == word as int % pow2(lsb as nat) as int,
        w2 as int / pow2((lsb + width) as nat) as int == word as int / pow2(
            (lsb + width) as nat,
        ) as int,
{
    lemma2_to64();
    vstd::arithmetic::power2::lemma2_to64_rest();
    if width == 64 {
        assert(w2 == value) by (bit_vector)
            requires
                width == 64,
                lsb == 0,
                lhs == 0u64,
                rhs == 0u64,
                w2 == lhs | (value << lsb) | rhs,
        ;
        vstd::arithmetic::div_mod::lemma_small_mod(value as nat, pow2(64));
        vstd::arithmetic::div_mod::lemma_basic_div(w2 as int, pow2(64) as int);
        vstd::arithmetic::div_mod::lemma_basic_div(word as int, pow2(64) as int);
        assert(pow2(0) == 1);
        assert(w2 as int / pow2(0) as int == w2 as int);
        assert(unsigned_field(w2, width, lsb) == value);
        assert(w2 as int % pow2(0) as int == 0) by (nonlinear_arith)
            requires
                pow2(0) == 1,
                w2 >= 0,
        ;
        assert(word as int % pow2(0) as int == 0) by (nonlinear_arith)
            requires
                pow2(0) == 1,
                word >= 0,
        ;
    } else {
        vstd::bits::lemma_u64_pow2_no_overflow(width as nat);
        lemma_u64_shl_is_mul(1, width);
        let uf = ((w2 << ((64 - lsb - width) as u64)) >> ((64 - lsb - width) as u64)) >> lsb;
        assert(uf == value && w2 & (((1u64 << lsb) - 1) as u64) == word & (((1u64 << lsb) - 1)
            as u64) && (lsb + width < 64 ==> w2 >> ((lsb + width) as u64) == word >> ((lsb + width)
            as u64))) by (bit_vector)
            requires
                0 < width < 64,
                lsb + width <= 64,
                value < (1u64 << (width as u64)),
                lhs == (if lsb + width == 64 {
                    0u64
                } else {
                    (word >> ((lsb + width) as u64)) << ((lsb + width) as u64)
                }),
                rhs == (if lsb == 0 {
                    0u64
                } else {
                    (word << ((64 - lsb) as u64)) >> ((64 - lsb) as u64)
                }),
                w2 == lhs | (value << lsb) | rhs,
                uf == ((w2 << ((64 - lsb - width) as u64)) >> ((64 - lsb - width) as u64)) >> lsb,
        ;
        lemma_unsigned_field_shifts(w2, width, lsb, value);
        lemma_low_bits_agree(w2, word, lsb);
        if lsb + width < 64 {
            lemma_u64_shr_is_div(w2, (lsb + width) as u64);
            lemma_u64_shr_is_div(word, (lsb + width) as u64);
        } else {
            vstd::arithmetic::div_mod::lemma_basic_div(w2 as int, pow2(64) as int);
            vstd::arithmetic::div_mod::lemma_basic_div(word as int, pow2(64) as int);
        }
    }
}

/// Return a modified version of the unsigned `word`, whose `width` bits
/// beginning at least-significant bit `lsb` now contain the low `width`
/// bits of the signed `value` — the value modulo 2^width; `None` iff the
/// value does not fit in `width` signed bits. Every bit below and above
/// the field keeps its old value.
pub fn news(word: u64, width: u64, lsb: u64, value: i64) -> (r: Option<u64>)
    requires
        width + lsb <= 64,
    ensures
        r is Some <==> fits_signed(value, width),
        r matches Some(w2) ==> {
            &&& unsigned_field(w2, width, lsb) == (value as int) % (pow2(width as nat) as int)
            &&& w2 as int % pow2(lsb as nat) as int == word as int % pow2(lsb as nat) as int
            &&& w2 as int / pow2((lsb + width) as nat) as int == word as int / pow2(
                (lsb + width) as nat,
            ) as int
        },
{
    if !fitss(value, width) {
        return None;
    }
    // We can use `newu` but we need to remove any leading 1s produced by
    // 2's complement
    let magnitude = WORD_SIZE - width;
    let adjusted = logical_shift_right(
        shift_left(#[verifier::truncate] (value as u64), magnitude),
        magnitude,
    );
    proof {
        lemma_news_adjusted(width, value, adjusted);
    }
    newu(word, width, lsb, adjusted)
}

/// Truncating a fitting signed value to its field width gives the value
/// modulo 2^width.
proof fn lemma_news_adjusted(width: u64, value: i64, adjusted: u64)
    requires
        0 < width <= 64,
        fits_signed(value, width),
        adjusted == ((value as u64) << ((64 - width) as u64)) >> ((64 - width) as u64),
    ensures
        fits_unsigned(adjusted, width),
        adjusted == (value as int) % (pow2(width as nat) as int),
{
    lemma2_to64();
    vstd::arithmetic::power2::lemma2_to64_rest();
    vstd::arithmetic::power2::lemma_pow2_pos(width as nat);
    if width == 64 {
        assert((adjusted == value as u64) && (value >= 0 ==> value as u64 == value) && (value < 0
            ==> value as u64 == value + 0x1_0000_0000_0000_0000)) by (bit_vector)
            requires
                width == 64,
                adjusted == ((value as u64) << ((64 - width) as u64)) >> ((64 - width) as u64),
        ;
        if value >= 0 {
            vstd::arithmetic::div_mod::lemma_small_mod(value as nat, pow2(64));
        } else {
            vstd::arithmetic::div_mod::lemma_fundamental_div_mod_converse(
                value as int,
                pow2(64) as int,
                -1,
                value + pow2(64),
            );
        }
    } else if width == 63 {
        assert((adjusted < 0x8000_0000_0000_0000u64) && (value >= 0 ==> adjusted == value) && (
        value < 0 ==> adjusted as int == value + 0x8000_0000_0000_0000)) by (bit_vector)
            requires
                width == 63,
                adjusted == ((value as u64) << ((64 - width) as u64)) >> ((64 - width) as u64),
        ;
        if value >= 0 {
            vstd::arithmetic::div_mod::lemma_small_mod(value as nat, pow2(63));
        } else {
            vstd::arithmetic::div_mod::lemma_fundamental_div_mod_converse(
                value as int,
                pow2(63) as int,
                -1,
                value + pow2(63),
            );
        }
    } else {
        assert((adjusted < (1u64 << (width as u64))) && (value >= 0 && value < (1i64 << (
        width as u64)) ==> adjusted == value) && (value < 0 && value + (1i64 << (width as u64))
            >= 0 ==> adjusted as int == value + (1u64 << (width as u64)) as int)) by (bit_vector)
            requires
                0 < width < 63,
                adjusted == ((value as u64) << ((64 - width) as u64)) >> ((64 - width) as u64),
        ;
        vstd::bits::lemma_u64_pow2_no_overflow(width as nat);
        lemma_u64_shl_is_mul(1, width);
        assert(1i64 << (width as u64) == (1u64 << (width as u64)) as i64) by (bit_vector)
            requires
                width < 63,
        ;
        if width == 1 {
            if value >= 0 {
                vstd::arithmetic::div_mod::lemma_small_mod(value as nat, pow2(width as nat));
            } else {
                vstd::arithmetic::div_mod::lemma_fundamental_div_mod_converse(
                    value as int,
                    pow2(width as nat) as int,
                    -1,
                    value + pow2(width as nat),
                );
            }
        } else {
            if value >= 0 {
                vstd::arithmetic::div_mod::lemma_small_mod(value as nat, pow2(width as nat));
            } else {
                vstd::arithmetic::div_mod::lemma_fundamental_div_mod_converse(
                    value as int,
                    pow2(width as nat) as int,
                    -1,
                    value + pow2(width as nat),
                );
            }
        }
    }
}

/// A field holding a value's bits modulo 2^width reads back, as a signed
/// field, exactly the values of the proper two's-complement range.
pub proof fn lemma_signed_field_in_range(w2: u64, width: u64, lsb: u64, value: i64)
    requires
        0 < width,
        lsb + width <= 64,
        -(pow2((width - 1) as nat) as int) <= value < pow2((width - 1) as nat),
        unsigned_field(w2, width, lsb) == (value as int) % (pow2(width as nat) as int),
    ensures
        signed_field(w2, width, lsb) == value,
{
    vstd::arithmetic::power2::lemma_pow2_pos((width - 1) as nat);
    vstd::arithmetic::power2::lemma_pow2_pos(width as nat);
    vstd::arithmetic::power2::lemma_pow2_adds((width - 1) as nat, 1);
    lemma2_to64();
    if value >= 0 {
        vstd::arithmetic::div_mod::lemma_small_mod(value as nat, pow2(width as nat));
    } else {
        vstd::arithmetic::div_mod::lemma_fundamental_div_mod_converse(
            value as int,
            pow2(width as nat) as int,
            -1,
            value + pow2(width as nat),
        );
    }
}

/// Two words that agree modulo 2^k carry the same field wherever the
/// field lies below bit `k`.
pub proof fn lemma_field_low_agreement(x: u64, y: u64, width: u64, lsb: u64, k: u64)
    requires
        0 < width,
        lsb + width <= k <= 64,
        x as int % pow2(k as nat) as int == y as int % pow2(k as nat) as int,
    ensures
        unsigned_field(x, width, lsb) == unsigned_field(y, width, lsb),
        signed_field(x, width, lsb) == signed_field(y, width, lsb),
{
    let pl = pow2(lsb as nat) as int;
    let pw = pow2(width as nat) as int;
    let plw = pow2((lsb + width) as nat) as int;
    let ph = pow2((k - lsb - width) as nat) as int;
    vstd::arithmetic::power2::lemma_pow2_pos(lsb as nat);
    vstd::arithmetic::power2::lemma_pow2_pos(width as nat);
    vstd::arithmetic::power2::lemma_pow2_pos((lsb + width) as nat);
    vstd::arithmetic::power2::lemma_pow2_pos((k - lsb - width) as nat);
    vstd::arithmetic::power2::lemma_pow2_adds((lsb + width) as nat, (k - lsb - width) as nat);
    // The words agree modulo 2^(lsb+width).
    vstd::arithmetic::div_mod::lemma_mod_mod(x as int, plw, ph);
    vstd::arithmetic::div_mod::lemma_mod_mod(y as int, plw, ph);
    assert(x as int % plw == y as int % plw);
    // Break each remainder into the field and the bits below it.
    vstd::arithmetic::power2::lemma_pow2_adds(lsb as nat, width as nat);
    vstd::arithmetic::div_mod::lemma_mod_breakdown(x as int, pl, pw);
    vstd::arithmetic::div_mod::lemma_mod_breakdown(y as int, pl, pw);
    vstd::arithmetic::div_mod::lemma_mod_mod(x as int, pl, pw);
    vstd::arithmetic::div_mod::lemma_mod_mod(y as int, pl, pw);
    assert(x as int % pl == y as int % pl);
    let fx = (x as int / pl) % pw;
    let fy = (y as int / pl) % pw;
    assert(pl * fx == pl * fy);
    assert(fx == fy) by (nonlinear_arith)
        requires
            pl > 0,
            pl * fx == pl * fy,
    ;
}

} // verus!
