use rum::rumload::words_from_bytes;
use rum::rumrun::Fault;

#[test]
fn load_word() {
    let buffer: Vec<u8> = vec![0b00110011, 0b10000001, 0b11110000, 0b00100101];
    let word = words_from_bytes(&buffer).unwrap()[0];

    assert_eq!(word, 0b00110011100000011111000000100101);
    // Sanity check               v
    assert_ne!(word, 0b00110011100100011111000000100101);
}

#[test]
fn load_many_words() {
    let buffer: Vec<u8> = vec![0, 0, 0, 1, 0, 0, 1, 0, 0xFF, 0xFF, 0xFF, 0xFF];
    let words = words_from_bytes(&buffer).unwrap();
    assert_eq!(words, vec![1, 256, 0xFFFF_FFFF]);
}

#[test]
fn malformed_byte_count() {
    let buffer: Vec<u8> = vec![1, 2, 3, 4, 5];
    assert_eq!(words_from_bytes(&buffer), Err(Fault::MalformedFile));
    let empty: Vec<u8> = vec![];
    assert_eq!(words_from_bytes(&empty), Ok(vec![]));
}
