use rum::bitpack::{arithmetic_shift_right, fitss, fitsu, gets, getu, logical_shift_right, news, newu, shift_left};

#[test]
fn _shift_left() {
    assert_eq!(shift_left(0b11, 2), 0b1100);
    // "Out of bounds" shift
    assert_eq!(shift_left(0b1010, 64), 0);
    assert_eq!(shift_left(0b1010, 1000), 0);
}

#[test]
fn _logical_shift_right() {
    assert_eq!(logical_shift_right(0b1100, 2), 0b11);
    // "Out of bounds" shift
    assert_eq!(logical_shift_right(0b1010, 64), 0);
    assert_eq!(logical_shift_right(0b1010, 1000), 0);
}

#[test]
fn _arithmetic_shift_right() {
    assert_eq!(arithmetic_shift_right(0b1100, 2), 0b11);
    // "Out of bounds" shift
    assert_eq!(arithmetic_shift_right(50, 64), 0);
    assert_eq!(arithmetic_shift_right(-50, 64), i64::MIN);
}

#[test]
fn _fitsu() {
    assert!(fitsu(31, 5));
    assert!(!fitsu(32, 5));
}

#[test]
fn _fitss() {
    assert!(fitss(15, 4));
    assert!(!fitss(16, 4));
    assert!(fitss(-16, 4));
}

#[test]
fn _get() {
    // Example bitpacking scenario
    //                 a         b     c     d     pbi  pri
    let word: u64 = 0b_100101101_00100_10001_00000_1111_0101;
    assert_eq!(getu(word, 4, 0), 5);
    assert_eq!(getu(word, 4, 4), 15);
    assert_eq!(gets(word, 5, 8), 0);
    assert_eq!(gets(word, 5, 13), -15);
    assert_eq!(gets(word, 5, 18), 4);
    assert_eq!(getu(word, 9, 23), 301);

    // Positive signed and unsigned integers are handled the same
    assert_eq!(getu(0b0111, 2, 2), gets(0b0111, 2, 2) as u64);
    // Negative signed integers are handled differently than positive integers
    assert_ne!(getu(0b1111, 2, 2) as i64, gets(0b1111, 2, 2));
}

#[test]
fn _new() {
    assert_eq!(newu(0b00000000, 3, 2, 0b111), Some(0b00011100));
    assert_eq!(newu(0b11111111, 4, 3, 0b1111), Some(0b11111111));
    assert_eq!(newu(0b11111111, 4, 3, 0b1), Some(0b10001111));
    // Value does not fit
    assert_eq!(newu(0b0000, 2, 0, 0b1111), None);
    // Positive integers handled the same
    assert_eq!(newu(0b00000000, 3, 2, 0b111), news(0b00000000, 3, 2, 0b111));

    // Appropriate handling of 2s complement integers
    assert_eq!(news(0, 3, 0, 0b101_i64), Some(0b101_u64));
}
