use rum::rummem::{load, load_program, store, unmap, Memory};

#[test]
fn map_segment() {
    let mut memory = Memory::new();
    let index = rum::rummem::map(&mut memory, 10);
    assert_eq!(memory.get(index as usize).unwrap().len(), 10);
}

#[test]
fn unmap_segment() {
    let mut memory = Memory::new();
    let index = rum::rummem::map(&mut memory, 10);
    assert_eq!(memory.get(index as usize), Some(&vec![0u32; 10]));
    assert_eq!(memory.free_count(), 0);
    unmap(&mut memory, index);
    assert_eq!(memory.free_count(), 1);
    assert_eq!(memory.free_at(0), 1);
    rum::rummem::map(&mut memory, 50);
    assert_eq!(memory.get(index as usize), Some(&vec![0u32; 50]));
}

#[test]
fn default_value() {
    let mut memory = Memory::new();
    let index = rum::rummem::map(&mut memory, 10);

    for i in 0..10 {
        assert_eq!(memory.get(index as usize).unwrap()[i], 0);
    }
}

#[test]
fn load_store() {
    let mut memory = Memory::new();
    let index = rum::rummem::map(&mut memory, 10);
    let value = 59;
    let offset = 3;
    store(&mut memory, value, index, offset);
    let loaded_value = load(&memory, index, offset);
    assert_eq!(value, loaded_value);
}

#[test]
fn program_segment() {
    let mut memory = Memory::new();
    load_program(&mut memory, vec![7, 8, 9]);
    assert_eq!(rum::rummem::get_program_length(&memory), 3);
    assert_eq!(load(&memory, 0, 2), 9);
}
