use rum::rumdis::disassemble;

#[test]
fn segmented_load() {
    //                op   unused              rA  rB  rC
    let word: u32 = 0b0001_0000000000000000000_110_010_101;
    let product = &disassemble(&word);

    assert_eq!(product.opcode, 1);
    assert_eq!(product.reg_a, 6);
    assert_eq!(product.reg_b, 2);
    assert_eq!(product.reg_c, 5);
}

#[test]
fn load_value() {
    //                op   rL  value
    let word: u32 = 0b1101_111_1001101001010100101010001;
    let product = &disassemble(&word);

    assert_eq!(product.opcode, 13);
    assert_eq!(product.reg_load, 7);
    assert_eq!(product.load_value, 20228433);
}
