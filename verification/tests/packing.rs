use rum::packing::{pack, unpack};
use rum::quantize::QuantizedBlock;

#[test]
fn _pack() {
    let input = QuantizedBlock {
        a: 281,
        b: -10,
        c: 15,
        d: -15,
        pb_index: 1,
        pr_index: 9,
    };

    let expected: u64 = 0b100011001_10110_01111_10001_0001_1001;
    let packed = pack(input);
    assert_eq!(packed, expected);
}

#[test]
fn _unpack() {
    let input: u64 = 0b100011001_10110_01111_10001_0001_1001;

    let expected = QuantizedBlock {
        a: 281,
        b: -10,
        c: 15,
        d: -15,
        pb_index: 1,
        pr_index: 9,
    };

    let unpacked = unpack(input);

    assert_eq!(unpacked.a, expected.a);
    assert_eq!(unpacked.b, expected.b);
    assert_eq!(unpacked.c, expected.c);
    assert_eq!(unpacked.d, expected.d);
    assert_eq!(unpacked.pb_index, expected.pb_index);
    assert_eq!(unpacked.pr_index, expected.pr_index);
}
