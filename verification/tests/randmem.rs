use rum::randmem::{load, load_program, store, unmap, Memory};

#[test]
fn rummem_map_segment() {
    let mut memory = Memory::new();
    let index = rum::randmem::map(&mut memory, 10);
    assert_eq!(memory[&index].len(), 10);
}

#[test]
fn rummem_unmap_segment() {
    let mut memory = Memory::new();
    let index = rum::randmem::map(&mut memory, 10);
    assert_eq!(memory.contains_key(&index), true);
    unmap(&mut memory, index);
    assert_eq!(memory.contains_key(&index), false);
}

#[test]
fn rummem_default_value() {
    let mut memory = Memory::new();
    let index = rum::randmem::map(&mut memory, 10);

    for i in 0..10 {
        assert_eq!(memory[&index][i], 0);
    }
}

#[test]
fn rummem_load_store() {
    let mut memory = Memory::new();
    let index = rum::randmem::map(&mut memory, 10);
    let value = 59;
    let offset = 3;
    store(&mut memory, value, index, offset);
    let loaded_value = load(&memory, index, offset);
    assert_eq!(value, loaded_value);
}

#[test]
fn rummem_random_reuse() {
    // With the program segment in place, a mapped segment never takes
    // identifier 0, freeing it frees exactly it, and mapping again finds
    // some other free identifier.
    let mut memory = Memory::new();
    load_program(&mut memory, vec![0, 0, 0]);
    let first = rum::randmem::map(&mut memory, 4);
    assert_ne!(first, 0);
    let second = rum::randmem::map(&mut memory, 4);
    assert_ne!(second, 0);
    assert_ne!(second, first);
    unmap(&mut memory, first);
    assert!(!memory.contains_key(&first));
    let third = rum::randmem::map(&mut memory, 2);
    assert_ne!(third, 0);
    assert_ne!(third, second);
    assert_eq!(memory[&third].len(), 2);
}
