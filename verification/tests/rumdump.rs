use rum::rumdump::{disassemble, get, Field};

#[test]
fn disassemble_halt() {
    assert_eq!(disassemble(0x7000_0000), "Halt.");
}

#[test]
fn disassemble_load_value() {
    let word: u32 = 0b1101_111_1001101001010100101010001;
    assert_eq!(disassemble(word), "r7 := 20228433");
}

#[test]
fn disassemble_segmented_load() {
    let word: u32 = 0b0001_0000000000000000000_110_010_101;
    assert_eq!(disassemble(word), "r6 := $m[r2][r5]");
}

#[test]
fn disassemble_add() {
    let word: u32 = 3 << 28 | 1 << 6 | 2 << 3 | 3;
    assert_eq!(disassemble(word), "r1 := (r2 + r3) % 2^32");
}

#[test]
fn disassemble_invalid() {
    assert_eq!(disassemble(0xF000_0000), "Invalid instruction 4026531840");
}

#[test]
fn extract_field() {
    let word: u32 = 0b0001_0000000000000000000_110_010_101;
    assert_eq!(get(&Field { width: 3, lsb: 6 }, word), 6);
    assert_eq!(get(&Field { width: 4, lsb: 28 }, word), 1);
}
